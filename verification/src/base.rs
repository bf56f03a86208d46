//! The base address of the image, as it is written on a command line:
//! in decimal, or in hexadecimal after `0x`.

use vstd::prelude::*;
use vstd::string::*;
use crate::emit::{hex, hex_digits};

verus! {

/// The value of a character as a digit of the given radix.  The
/// digits are `0` to `9`, then the letters in either case.
pub open spec fn digit_value(c: char, radix: int) -> Option<int> {
    let code = c as int;
    let value = if 0x30 <= code <= 0x39 {
        code - 0x30
    } else if 0x61 <= code <= 0x7a {
        code - 0x61 + 10
    } else if 0x41 <= code <= 0x5a {
        code - 0x41 + 10
    } else {
        radix
    };
    if value < radix {
        Some(value)
    } else {
        None
    }
}

/// The number that the characters from `start` up to `end` spell in
/// the given radix, most significant digit first; `None` where one of
/// them is no digit.
pub open spec fn digits_value(text: Seq<char>, radix: int, start: int, end: int) -> Option<int>
    decreases end - start,
{
    if end <= start {
        Some(0)
    } else {
        match (digits_value(text, radix, start, end - 1), digit_value(text[end - 1], radix)) {
            (Some(front), Some(digit)) => Some(front * radix + digit),
            _ => None,
        }
    }
}

/// The number that starts at `start` of the text: an optional plus
/// sign, then at least one digit and nothing but digits, and a value
/// that fits in 32 bits.
pub open spec fn unsigned_model(text: Seq<char>, radix: int, start: int) -> Option<u32> {
    let first = if start < text.len() && text[start] == '+' {
        start + 1
    } else {
        start
    };
    if first >= text.len() {
        None
    } else {
        match digits_value(text, radix, first, text.len() as int) {
            Some(value) => if value <= u32::MAX {
                Some(value as u32)
            } else {
                None
            },
            None => None,
        }
    }
}

/// The base address that an argument gives: hexadecimal after the
/// prefix `0x`, decimal without it.
pub open spec fn base_address_model(arg: Seq<char>) -> Option<u32> {
    if arg.len() >= 2 && arg[0] == '0' && arg[1] == 'x' {
        unsigned_model(arg, 16, 2)
    } else {
        unsigned_model(arg, 10, 0)
    }
}

/// A longer run of digits spells no smaller a number, and is no number
/// where a shorter run is none.
pub proof fn lemma_digits_grow(text: Seq<char>, radix: int, start: int, middle: int, end: int)
    requires
        1 <= radix,
        start <= middle <= end,
    ensures
        digits_value(text, radix, start, middle) is None ==> digits_value(
            text,
            radix,
            start,
            end,
        ) is None,
        digits_value(text, radix, start, end) matches Some(whole) ==> 0 <= digits_value(
            text,
            radix,
            start,
            middle,
        )->0 <= whole,
    decreases end - middle,
{
    if middle < end {
        lemma_digits_grow(text, radix, start, middle, end - 1);
        if digits_value(text, radix, start, end) is Some {
            let front = digits_value(text, radix, start, end - 1)->0;
            assert(front <= front * radix) by (nonlinear_arith)
                requires
                    0 <= front,
                    1 <= radix,
            ;
        }
    } else {
        lemma_digits_nonnegative(text, radix, start, end);
    }
}

/// A run of digits spells no negative number.
pub proof fn lemma_digits_nonnegative(text: Seq<char>, radix: int, start: int, end: int)
    requires
        1 <= radix,
    ensures
        digits_value(text, radix, start, end) matches Some(value) ==> 0 <= value,
    decreases end - start,
{
    if start < end {
        lemma_digits_nonnegative(text, radix, start, end - 1);
        if digits_value(text, radix, start, end) is Some {
            let front = digits_value(text, radix, start, end - 1)->0;
            assert(0 <= front * radix) by (nonlinear_arith)
                requires
                    0 <= front,
                    1 <= radix,
            ;
        }
    }
}

/// The value of a character as a digit of the given radix.
fn digit_of(c: char, radix: u32) -> (r: Option<u32>)
    requires
        radix <= 36,
    ensures
        r is Some <==> digit_value(c, radix as int) is Some,
        r matches Some(d) ==> digit_value(c, radix as int) == Some(d as int) && d < radix,
{
    let code: u32 = c as u32;
    let value: u32 = if 0x30 <= code && code <= 0x39 {
        code - 0x30
    } else if 0x61 <= code && code <= 0x7a {
        code - 0x61 + 10
    } else if 0x41 <= code && code <= 0x5a {
        code - 0x41 + 10
    } else {
        radix
    };
    if value < radix {
        Some(value)
    } else {
        None
    }
}

/// Reads the unsigned number that starts at `start` of the text.
fn parse_unsigned(text: &str, radix: u32, start: usize) -> (r: Option<u32>)
    requires
        2 <= radix <= 36,
    ensures
        r == unsigned_model(text@, radix as int, start as int),
{
    let n: usize = text.unicode_len();
    let first: usize = if start < n && text.get_char(start) == '+' {
        start + 1
    } else {
        start
    };
    if first >= n {
        return None;
    }
    let mut value: u64 = 0;
    let mut i: usize = first;
    while i < n
        invariant
            2 <= radix <= 36,
            n == text@.len(),
            first <= i <= n,
            first < n,
            first == if start < text@.len() && text@[start as int] == '+' {
                start + 1
            } else {
                start as int
            },
            value <= u32::MAX,
            digits_value(text@, radix as int, first as int, i as int) == Some(value as int),
        decreases n - i,
    {
        let digit = match digit_of(text.get_char(i), radix) {
            Some(digit) => digit,
            None => {
                proof {
                    assert(digits_value(text@, radix as int, first as int, i + 1) is None);
                    lemma_digits_grow(text@, radix as int, first as int, i + 1, n as int);
                }
                return None;
            },
        };
        assert(value * radix + digit <= u32::MAX * 36 + 36) by (nonlinear_arith)
            requires
                value <= u32::MAX,
                radix <= 36,
                digit < radix,
        ;
        value = value * radix as u64 + digit as u64;
        assert(digits_value(text@, radix as int, first as int, i + 1) == Some(value as int));
        if value > u32::MAX as u64 {
            proof {
                lemma_digits_grow(text@, radix as int, first as int, i + 1, n as int);
            }
            return None;
        }
        i += 1;
    }
    Some(value as u32)
}

/// Reads a base address: a decimal number, or a hexadecimal one after
/// `0x`.  `None` where the argument is neither, or the number does
/// not fit in 32 bits.
pub fn parse_base_address(arg: &str) -> (r: Option<u32>)
    ensures
        r == base_address_model(arg@),
{
    let n: usize = arg.unicode_len();
    if n >= 2 && arg.get_char(0) == '0' && arg.get_char(1) == 'x' {
        parse_unsigned(arg, 16, 2)
    } else {
        parse_unsigned(arg, 10, 0)
    }
}

/// A run of digits is read from its own characters alone: two texts
/// that hold the same characters in two ranges spell the same number
/// there.
pub proof fn lemma_digits_local(
    a: Seq<char>,
    b: Seq<char>,
    radix: int,
    start_a: int,
    start_b: int,
    len: int,
)
    requires
        0 <= len,
        0 <= start_a && start_a + len <= a.len(),
        0 <= start_b && start_b + len <= b.len(),
        a.subrange(start_a, start_a + len) == b.subrange(start_b, start_b + len),
    ensures
        digits_value(a, radix, start_a, start_a + len) == digits_value(
            b,
            radix,
            start_b,
            start_b + len,
        ),
    decreases len,
{
    if len > 0 {
        let run_a = a.subrange(start_a, start_a + len);
        let run_b = b.subrange(start_b, start_b + len);
        assert(a.subrange(start_a, start_a + len - 1) =~= run_a.take(len - 1));
        assert(b.subrange(start_b, start_b + len - 1) =~= run_b.take(len - 1));
        lemma_digits_local(a, b, radix, start_a, start_b, len - 1);
        assert(a[start_a + len - 1] == run_a[len - 1]);
        assert(b[start_b + len - 1] == run_b[len - 1]);
    }
}

/// Each hexadecimal digit has the value of its position among the
/// sixteen.
pub proof fn lemma_hex_digit(d: int)
    requires
        0 <= d < 16,
    ensures
        digit_value(hex_digits()[d], 16) == Some(d),
        hex_digits()[d] != '+',
{
    reveal_strlit("0123456789abcdef");
    let digits = hex_digits();
    assert(digits[0] == '0' && digits[1] == '1' && digits[2] == '2' && digits[3] == '3');
    assert(digits[4] == '4' && digits[5] == '5' && digits[6] == '6' && digits[7] == '7');
    assert(digits[8] == '8' && digits[9] == '9' && digits[10] == 'a' && digits[11] == 'b');
    assert(digits[12] == 'c' && digits[13] == 'd' && digits[14] == 'e' && digits[15] == 'f');
}

/// A number written in hexadecimal spells that number.
pub proof fn lemma_hex_value(n: nat, width: nat)
    ensures
        hex(n, width).len() >= 1,
        hex(n, width)[0] != '+',
        digits_value(hex(n, width), 16, 0, hex(n, width).len() as int) == Some(n as int),
    decreases n, width,
{
    let text = hex(n, width);
    if n < 16 && width <= 1 {
        lemma_hex_digit(n as int);
        assert(digits_value(text, 16, 0, 0) == Some(0int));
    } else {
        let fewer: nat = if width == 0 {
            0
        } else {
            (width - 1) as nat
        };
        let front = hex(n / 16, fewer);
        lemma_hex_value(n / 16, fewer);
        lemma_hex_digit((n % 16) as int);
        assert(text == front.push(hex_digits()[(n % 16) as int]));
        assert(text[0] == front[0]);
        assert(text.subrange(0, front.len() as int) =~= front.subrange(0, front.len() as int));
        lemma_digits_local(text, front, 16, 0, 0, front.len() as int);
    }
}

/// An address that is written as the listing writes it, in hexadecimal
/// after `0x` and with any number of leading zeros, is read back as the
/// same address.
pub proof fn law_written_address_reads_back(address: u32, width: nat)
    ensures
        base_address_model("0x"@ + hex(address as nat, width)) == Some(address),
{
    reveal_strlit("0x");
    let digits = hex(address as nat, width);
    let text = "0x"@ + digits;
    lemma_hex_value(address as nat, width);
    assert(text[0] == '0' && text[1] == 'x');
    assert(text[2] == digits[0]);
    assert(text.subrange(2, 2 + digits.len() as int) =~= digits.subrange(0, digits.len() as int));
    lemma_digits_local(text, digits, 16, 2, 0, digits.len() as int);
}

} // verus!
