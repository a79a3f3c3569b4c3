//! Decimal numbers in text.

use vstd::prelude::*;
use vstd::string::*;

verus! {

/// The character of a decimal digit.
pub open spec fn digit_char(digit: nat) -> char {
    (48 + digit) as char
}

/// A number in decimal digits, without leading zeros.
pub open spec fn decimal(n: nat) -> Seq<char>
    decreases n,
{
    if n < 10 {
        seq![digit_char(n)]
    } else {
        decimal(n / 10).push(digit_char(n % 10))
    }
}

/// The digits of a number, as bytes.
pub open spec fn decimal_bytes(n: nat) -> Seq<u8> {
    decimal(n).map_values(|c: char| c as u8)
}

/// A number that is written down is read back as itself. It is written without leading zeros.
pub proof fn written_number_is_read_back(n: nat)
    ensures
        digits_value(decimal_bytes(n)) == Some(n),
        n <= u64::MAX ==> number_in(decimal_bytes(n)) == Some(n),
        decimal(n).len() >= 1,
        n >= 10 ==> decimal(n)[0] != '0',
        forall|i: int| 0 <= i < decimal(n).len() ==> '0' <= #[trigger] decimal(n)[i] <= '9',
    decreases n,
{
    reveal_with_fuel(digits_value, 2);
    let bytes = decimal_bytes(n);
    assert(48 <= bytes.last() <= 57);
    if n < 10 {
        assert(bytes.drop_last() =~= Seq::empty());
    } else {
        written_number_is_read_back(n / 10);
        assert(bytes.drop_last() =~= decimal_bytes(n / 10));
        assert(decimal(n)[0] == decimal(n / 10)[0]);
        if n / 10 < 10 {
            assert(decimal(n / 10)[0] == digit_char(n / 10));
        }
    }
    assert(48 <= bytes[0] <= 57) by {
        assert('0' <= decimal(n)[0] <= '9');
    }
    assert(without_plus(bytes) == bytes);
}

/// The text of a decimal digit.
fn digit_text(digit: u64) -> (text: &'static str)
    requires
        digit < 10,
    ensures
        text@ == seq![digit_char(digit as nat)],
{
    proof {
        reveal_strlit("0");
        reveal_strlit("1");
        reveal_strlit("2");
        reveal_strlit("3");
        reveal_strlit("4");
        reveal_strlit("5");
        reveal_strlit("6");
        reveal_strlit("7");
        reveal_strlit("8");
        reveal_strlit("9");
    }
    let text = match digit {
        0 => "0",
        1 => "1",
        2 => "2",
        3 => "3",
        4 => "4",
        5 => "5",
        6 => "6",
        7 => "7",
        8 => "8",
        _ => "9",
    };
    assert(text@ =~= seq![digit_char(digit as nat)]);
    text
}

/// Write a number in decimal digits.
pub fn decimal_text(n: u64) -> (text: String)
    ensures
        text@ == decimal(n as nat),
    decreases n,
{
    let mut text = if n < 10 {
        String::new()
    } else {
        decimal_text(n / 10)
    };
    let ghost before = text@;
    text.append(digit_text(n % 10));
    assert(text@ =~= before.push(digit_char(n as nat % 10)));
    assert(n < 10 ==> text@ =~= seq![digit_char(n as nat)]);
    text
}

/// The number that decimal digits stand for; nothing where one is not a digit.
pub open spec fn digits_value(digits: Seq<u8>) -> Option<nat>
    decreases digits.len(),
{
    if digits.len() == 0 {
        Some(0)
    } else {
        match digits_value(digits.drop_last()) {
            Some(n) => if 48 <= digits.last() <= 57 {
                Some((n * 10 + (digits.last() - 48)) as nat)
            } else {
                None
            },
            None => None,
        }
    }
}

/// The digits of a number that may have a plus sign before it.
pub open spec fn without_plus(text: Seq<u8>) -> Seq<u8> {
    if text.len() > 0 && text[0] == 43 {
        text.skip(1)
    } else {
        text
    }
}

/// The 64-bit number that a text stands for: digits, at least one, that may have a plus sign before
/// them.
pub open spec fn number_in(text: Seq<u8>) -> Option<nat> {
    let digits = without_plus(text);
    if digits.len() == 0 {
        None
    } else {
        match digits_value(digits) {
            Some(n) => if n <= u64::MAX {
                Some(n)
            } else {
                None
            },
            None => None,
        }
    }
}

/// A text is a number just where it is made of digits, at least one, behind a plus sign or none, and
/// the number has no more than 64 bits; each digit counts for ten times what follows.
pub proof fn numbers_are_digits(text: Seq<u8>)
    ensures
        number_in(text) is Some ==> {
            let digits = if text.len() > 0 && text[0] == 43 {
                text.skip(1)
            } else {
                text
            };
            &&& digits.len() > 0
            &&& forall|i: int| 0 <= i < digits.len() ==> 48 <= #[trigger] digits[i] <= 57
            &&& number_in(text)->0 <= 0xffff_ffff_ffff_ffff
            &&& number_in(text)->0 % 10 == digits.last() - 48
        },
        number_in(Seq::empty()) is None,
        number_in(seq![43u8]) is None,
        text.len() > 0 && text[0] != 43 ==> number_in(seq![43u8] + text) == number_in(text),
{
    let digits = without_plus(text);
    if number_in(text) is Some {
        digits_are_digits(digits);
        let before = digits_value(digits.drop_last())->0;
        assert(digits_value(digits)->0 == before * 10 + (digits.last() - 48));
    }
    assert(seq![43u8].skip(1) =~= Seq::empty());
    assert((seq![43u8] + text).skip(1) =~= text);
}

/// What has a value is made of digits.
proof fn digits_are_digits(digits: Seq<u8>)
    requires
        digits_value(digits) is Some,
    ensures
        forall|i: int| 0 <= i < digits.len() ==> 48 <= #[trigger] digits[i] <= 57,
    decreases digits.len(),
{
    if digits.len() > 0 {
        digits_are_digits(digits.drop_last());
        assert forall|i: int| 0 <= i < digits.len() implies 48 <= #[trigger] digits[i] <= 57 by {
            if i < digits.len() - 1 {
                assert(digits[i] == digits.drop_last()[i]);
            }
        }
    }
}

/// More digits do not make a number smaller, nor a wrong text right.
proof fn digits_only_grow(digits: Seq<u8>, i: int)
    requires
        0 <= i <= digits.len(),
    ensures
        digits_value(digits) is Some ==> digits_value(digits.take(i)) is Some && digits_value(
            digits.take(i),
        )->0 <= digits_value(digits)->0,
    decreases digits.len() - i,
{
    if i == digits.len() {
        assert(digits.take(i) =~= digits);
    } else {
        digits_only_grow(digits, i + 1);
        assert(digits.take(i + 1).drop_last() =~= digits.take(i));
    }
}

/// Read a 64-bit number.
pub fn parse_number(text: &str) -> (number: Option<u64>)
    ensures
        number is Some <==> number_in(text.spec_bytes()) is Some,
        number matches Some(n) ==> number_in(text.spec_bytes()) == Some(n as nat),
{
    let bytes = text.as_bytes();
    let first: usize = if bytes.len() > 0 && bytes[0] == 43 {
        1
    } else {
        0
    };
    let ghost digits = without_plus(bytes@);
    assert(digits =~= bytes@.skip(first as int));
    if bytes.len() == first {
        return None;
    }
    let mut number: u64 = 0;
    let mut i: usize = first;
    assert(digits.take(0) =~= Seq::empty());
    while i < bytes.len()
        invariant
            first <= i <= bytes.len(),
            bytes@ == text.spec_bytes(),
            digits == without_plus(bytes@),
            digits =~= bytes@.skip(first as int),
            digits.len() > 0,
            digits_value(digits.take(i - first)) == Some(number as nat),
        decreases bytes.len() - i,
    {
        let byte: u8 = bytes[i];
        proof {
            assert(digits.take(i + 1 - first).drop_last() =~= digits.take(i - first));
            assert(digits.take(i + 1 - first).last() == byte);
            digits_only_grow(digits, i + 1 - first);
        }
        if byte < 48 || byte > 57 {
            return None;
        }
        let digit: u64 = (byte - 48) as u64;
        if number > (u64::MAX - digit) / 10 {
            return None;
        }
        number = number * 10 + digit;
        i += 1;
    }
    assert(digits.take(i - first) =~= digits);
    Some(number)
}

} // verus!
