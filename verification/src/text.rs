//! Text building: decimal and hexadecimal renderings of integers.

use vstd::prelude::*;

verus! {

/// The decimal digit for a value below ten.
pub open spec fn digit_text(d: nat) -> Seq<char> {
    if d == 0 {
        "0"@
    } else if d == 1 {
        "1"@
    } else if d == 2 {
        "2"@
    } else if d == 3 {
        "3"@
    } else if d == 4 {
        "4"@
    } else if d == 5 {
        "5"@
    } else if d == 6 {
        "6"@
    } else if d == 7 {
        "7"@
    } else if d == 8 {
        "8"@
    } else {
        "9"@
    }
}

/// Decimal rendering without leading zeros.
pub open spec fn decimal(n: nat) -> Seq<char>
    decreases n,
{
    if n < 10 {
        digit_text(n)
    } else {
        decimal(n / 10) + digit_text(n % 10)
    }
}

/// The upper-case hexadecimal digit for a value below sixteen.
pub open spec fn hex_digit_text(d: nat) -> Seq<char> {
    if d < 10 {
        digit_text(d)
    } else if d == 10 {
        "A"@
    } else if d == 11 {
        "B"@
    } else if d == 12 {
        "C"@
    } else if d == 13 {
        "D"@
    } else if d == 14 {
        "E"@
    } else {
        "F"@
    }
}

/// Two upper-case hexadecimal digits.
pub open spec fn hex_byte(b: u8) -> Seq<char> {
    hex_digit_text((b / 16) as nat) + hex_digit_text((b % 16) as nat)
}

fn digit_str(d: u64) -> (r: &'static str)
    requires
        d < 10,
    ensures
        r@ == digit_text(d as nat),
{
    match d {
        0 => "0",
        1 => "1",
        2 => "2",
        3 => "3",
        4 => "4",
        5 => "5",
        6 => "6",
        7 => "7",
        8 => "8",
        _ => "9",
    }
}

fn hex_digit_str(d: u8) -> (r: &'static str)
    requires
        d < 16,
    ensures
        r@ == hex_digit_text(d as nat),
{
    match d {
        10 => "A",
        11 => "B",
        12 => "C",
        13 => "D",
        14 => "E",
        15 => "F",
        _ => digit_str(d as u64),
    }
}

/// Appends the decimal rendering of `n`.
pub fn push_decimal(s: &mut String, n: u64)
    ensures
        final(s)@ == old(s)@ + decimal(n as nat),
    decreases n,
{
    if n >= 10 {
        push_decimal(s, n / 10);
    }
    s.append(digit_str(n % 10));
    proof {
        if n >= 10 {
            assert(s@ == old(s)@ + (decimal((n / 10) as nat) + digit_text((n % 10) as nat)));
        }
    }
}

/// Appends the two-digit upper-case hexadecimal rendering of `b`.
pub fn push_hex_byte(s: &mut String, b: u8)
    ensures
        final(s)@ == old(s)@ + hex_byte(b),
{
    s.append(hex_digit_str(b / 16));
    s.append(hex_digit_str(b % 16));
    assert(s@ == old(s)@ + (hex_digit_text((b / 16) as nat) + hex_digit_text((b % 16) as nat)));
}

/// The concatenation of two texts.
pub fn joined(a: &str, b: &str) -> (r: String)
    ensures
        r@ == a@ + b@,
{
    let mut s: String = a.to_owned();
    s.append(b);
    s
}

// ---------------------------------------------------------------------------
// Laws
// ---------------------------------------------------------------------------

/// The value of a decimal digit.
pub open spec fn digit_value(c: char) -> int {
    c as int - '0' as int
}

/// The number that decimal digits stand for.
pub open spec fn decimal_value(s: Seq<char>) -> int
    decreases s.len(),
{
    if s.len() == 0 {
        0
    } else {
        decimal_value(s.drop_last()) * 10 + digit_value(s.last())
    }
}

/// The value of an upper-case hexadecimal digit.
pub open spec fn hex_value(c: char) -> int {
    if '0' <= c <= '9' {
        c as int - '0' as int
    } else {
        c as int - 'A' as int + 10
    }
}

proof fn lemma_digit_text(d: nat)
    requires
        d < 10,
    ensures
        digit_text(d).len() == 1,
        '0' <= digit_text(d)[0] <= '9',
        digit_value(digit_text(d)[0]) == d,
{
    reveal_strlit("0");
    reveal_strlit("1");
    reveal_strlit("2");
    reveal_strlit("3");
    reveal_strlit("4");
    reveal_strlit("5");
    reveal_strlit("6");
    reveal_strlit("7");
    reveal_strlit("8");
    reveal_strlit("9");
}

/// A number is written in decimal digits, without leading zeros, that stand for it.
pub proof fn law_decimal_stands_for_the_number(n: nat)
    ensures
        decimal_value(decimal(n)) == n,
        decimal(n).len() > 0,
        forall|i: int| 0 <= i < decimal(n).len() ==> '0' <= #[trigger] decimal(n)[i] <= '9',
        n > 0 ==> decimal(n)[0] != '0',
        n < 10 ==> decimal(n).len() == 1,
    decreases n,
{
    if n < 10 {
        lemma_digit_text(n);
        assert(decimal(n).drop_last() =~= Seq::<char>::empty());
        assert(decimal_value(decimal(n).drop_last()) == 0);
    } else {
        law_decimal_stands_for_the_number(n / 10);
        lemma_digit_text(n % 10);
        assert(decimal(n).drop_last() =~= decimal(n / 10));
        assert(decimal(n).last() == digit_text(n % 10)[0]);
        assert(decimal(n)[0] == decimal(n / 10)[0]);
        assert forall|i: int| 0 <= i < decimal(n).len() implies '0' <= #[trigger] decimal(n)[i]
            <= '9' by {
            if i < decimal(n / 10).len() {
                assert(decimal(n)[i] == decimal(n / 10)[i]);
            } else {
                assert(decimal(n)[i] == digit_text(n % 10)[0]);
            }
        }
    }
}

proof fn lemma_hex_digit_text(d: nat)
    requires
        d < 16,
    ensures
        hex_digit_text(d).len() == 1,
        '0' <= hex_digit_text(d)[0] <= '9' || 'A' <= hex_digit_text(d)[0] <= 'F',
        hex_value(hex_digit_text(d)[0]) == d,
{
    reveal_strlit("A");
    reveal_strlit("B");
    reveal_strlit("C");
    reveal_strlit("D");
    reveal_strlit("E");
    reveal_strlit("F");
    if d < 10 {
        lemma_digit_text(d);
    }
}

/// A byte is written in two upper-case hexadecimal digits that stand for it.
pub proof fn law_hex_stands_for_the_byte(b: u8)
    ensures
        hex_byte(b).len() == 2,
        hex_value(hex_byte(b)[0]) * 16 + hex_value(hex_byte(b)[1]) == b,
        forall|i: int|
            0 <= i < 2 ==> '0' <= #[trigger] hex_byte(b)[i] <= '9' || 'A' <= hex_byte(b)[i] <= 'F',
{
    lemma_hex_digit_text((b / 16) as nat);
    lemma_hex_digit_text((b % 16) as nat);
}

} // verus!
