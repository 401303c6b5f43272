//! Numbers and characters as text.

use vstd::prelude::*;
use vstd::string::StringExecFns;
use vstd::string::StrSliceExecFns;

verus! {

/// The character of the digit `d` in a base up to sixteen.
pub open spec fn digit_char(d: int) -> char {
    if d == 0 {
        '0'
    } else if d == 1 {
        '1'
    } else if d == 2 {
        '2'
    } else if d == 3 {
        '3'
    } else if d == 4 {
        '4'
    } else if d == 5 {
        '5'
    } else if d == 6 {
        '6'
    } else if d == 7 {
        '7'
    } else if d == 8 {
        '8'
    } else if d == 9 {
        '9'
    } else if d == 10 {
        'a'
    } else if d == 11 {
        'b'
    } else if d == 12 {
        'c'
    } else if d == 13 {
        'd'
    } else if d == 14 {
        'e'
    } else {
        'f'
    }
}

/// The digits of `n` in `base`, the most significant first.
pub open spec fn digits(n: nat, base: nat) -> Seq<char>
    decreases n,
{
    if base < 2 || n < base {
        seq![digit_char(n as int)]
    } else {
        proof {
            assert(n / base < n) by (nonlinear_arith)
                requires
                    base >= 2,
                    n >= base,
            ;
        }
        digits(n / base, base).push(digit_char((n % base) as int))
    }
}

/// The value of a hexadecimal digit.
pub open spec fn hex_value(c: char) -> Option<u8> {
    if c == '0' {
        Some(0u8)
    } else if c == '1' {
        Some(1u8)
    } else if c == '2' {
        Some(2u8)
    } else if c == '3' {
        Some(3u8)
    } else if c == '4' {
        Some(4u8)
    } else if c == '5' {
        Some(5u8)
    } else if c == '6' {
        Some(6u8)
    } else if c == '7' {
        Some(7u8)
    } else if c == '8' {
        Some(8u8)
    } else if c == '9' {
        Some(9u8)
    } else if c == 'a' || c == 'A' {
        Some(10u8)
    } else if c == 'b' || c == 'B' {
        Some(11u8)
    } else if c == 'c' || c == 'C' {
        Some(12u8)
    } else if c == 'd' || c == 'D' {
        Some(13u8)
    } else if c == 'e' || c == 'E' {
        Some(14u8)
    } else if c == 'f' || c == 'F' {
        Some(15u8)
    } else {
        None
    }
}

/// The value of the digit `c`, if it is a hexadecimal digit.
pub fn hex_digit(c: char) -> (value: Option<u8>)
    ensures
        value == hex_value(c),
        value matches Some(v) ==> v < 16,
{
    match c {
        '0' => Some(0),
        '1' => Some(1),
        '2' => Some(2),
        '3' => Some(3),
        '4' => Some(4),
        '5' => Some(5),
        '6' => Some(6),
        '7' => Some(7),
        '8' => Some(8),
        '9' => Some(9),
        'a' | 'A' => Some(10),
        'b' | 'B' => Some(11),
        'c' | 'C' => Some(12),
        'd' | 'D' => Some(13),
        'e' | 'E' => Some(14),
        'f' | 'F' => Some(15),
        _ => None,
    }
}

/// The value of the digit `c`, if it is a decimal digit.
pub fn decimal_digit(c: char) -> (value: Option<u8>)
    ensures
        value == match hex_value(c) {
            Some(v) => if v < 10 { Some(v) } else { None },
            None => None,
        },
{
    match hex_digit(c) {
        Some(v) => if v < 10 { Some(v) } else { None },
        None => None,
    }
}

/// Appends the digit `d` to `text`.
pub fn push_digit(text: &mut String, d: usize)
    requires
        d < 16,
    ensures
        final(text)@ == old(text)@.push(digit_char(d as int)),
{
    proof {
        reveal_strlit("0");
        reveal_strlit("1");
        reveal_strlit("2");
        reveal_strlit("3");
        reveal_strlit("4");
        reveal_strlit("5");
        reveal_strlit("6");
        reveal_strlit("7");
        reveal_strlit("8");
        reveal_strlit("9");
        reveal_strlit("a");
        reveal_strlit("b");
        reveal_strlit("c");
        reveal_strlit("d");
        reveal_strlit("e");
        reveal_strlit("f");
    }
    let ghost before = text@;
    let digit = match d {
        0 => "0",
        1 => "1",
        2 => "2",
        3 => "3",
        4 => "4",
        5 => "5",
        6 => "6",
        7 => "7",
        8 => "8",
        9 => "9",
        10 => "a",
        11 => "b",
        12 => "c",
        13 => "d",
        14 => "e",
        _ => "f",
    };
    text.append(digit);
    assert(text@ =~= before.push(digit_char(d as int)));
}

/// Appends the digits of `n` in `base` to `text`.
pub fn push_number(text: &mut String, n: usize, base: usize)
    requires
        2 <= base <= 16,
    ensures
        final(text)@ == old(text)@ + digits(n as nat, base as nat),
    decreases n,
{
    let ghost before = text@;
    if n >= base {
        assert(n / base < n) by (nonlinear_arith)
            requires
                base >= 2,
                n >= base,
        ;
        push_number(text, n / base, base);
        push_digit(text, n % base);
        assert(text@ =~= before + digits(n as nat, base as nat));
    } else {
        push_digit(text, n);
        assert(text@ =~= before + digits(n as nat, base as nat));
    }
}

/// `n` in decimal digits.
pub fn decimal(n: usize) -> (text: String)
    ensures
        text@ == digits(n as nat, 10),
{
    let mut text = String::new();
    push_number(&mut text, n, 10);
    assert(Seq::<char>::empty() + digits(n as nat, 10) =~= digits(n as nat, 10));
    text
}

/// `n` in hexadecimal digits, in lower case.
pub fn hexadecimal(n: usize) -> (text: String)
    ensures
        text@ == digits(n as nat, 16),
{
    let mut text = String::new();
    push_number(&mut text, n, 16);
    assert(Seq::<char>::empty() + digits(n as nat, 16) =~= digits(n as nat, 16));
    text
}

/// `String::push`: appends one character to the string.
#[verifier::external_body]
fn push_char(text: &mut String, c: char)
    ensures
        final(text)@ == old(text)@.push(c),
{
    text.push(c)
}

/// The string of the characters of `chars`.
pub fn string_of(chars: &Vec<char>) -> (text: String)
    ensures
        text@ == chars@,
{
    let mut text = String::new();
    let mut i: usize = 0;
    while i < chars.len()
        invariant
            i <= chars@.len(),
            text@ == chars@.subrange(0, i as int),
        decreases chars@.len() - i,
    {
        push_char(&mut text, chars[i]);
        assert(text@ =~= chars@.subrange(0, i + 1));
        i += 1;
    }
    assert(chars@.subrange(0, chars@.len() as int) =~= chars@);
    text
}

/// The characters of `text`.
pub fn chars_of(text: &str) -> (chars: Vec<char>)
    ensures
        chars@ == text@,
{
    let len = text.unicode_len();
    let mut chars: Vec<char> = Vec::new();
    let mut i: usize = 0;
    while i < len
        invariant
            i <= len,
            len == text@.len(),
            chars@ == text@.subrange(0, i as int),
        decreases len - i,
    {
        chars.push(text.get_char(i));
        assert(chars@ =~= text@.subrange(0, i + 1));
        i += 1;
    }
    assert(text@.subrange(0, len as int) =~= text@);
    chars
}

} // verus!
