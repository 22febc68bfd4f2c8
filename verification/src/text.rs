//! Comparison of texts and the writing of numbers.

use vstd::prelude::*;
use vstd::string::*;

verus! {

/// Whether `left` and `right` are the same text.
pub fn same_text(left: &str, right: &str) -> (same: bool)
    ensures
        same == (left@ == right@),
{
    broadcast use vstd::utf8::encode_utf8_decode_utf8;

    let a = left.as_bytes();
    let b = right.as_bytes();
    proof {
        if left@ == right@ {
            assert(a@ == b@);
        }
        if a@ == b@ {
            assert(vstd::utf8::decode_utf8(a@) == left@);
            assert(vstd::utf8::decode_utf8(b@) == right@);
        }
    }
    if a.len() != b.len() {
        return false;
    }
    let mut i: usize = 0;
    while i < a.len()
        invariant
            0 <= i <= a.len(),
            a@.len() == b@.len(),
            (left@ == right@) <==> (a@ == b@),
            forall|j: int| 0 <= j < i ==> a@[j] == b@[j],
        decreases a.len() - i,
    {
        if a[i] != b[i] {
            assert(a@[i as int] != b@[i as int]);
            return false;
        }
        i += 1;
    }
    assert(a@ =~= b@);
    true
}

/// The byte that writes `digit`.
pub open spec fn digit_byte(digit: int) -> u8 {
    (48 + digit) as u8
}

/// The text that writes `digit`.
pub(crate) fn digit_str(digit: u8) -> (text: &'static str)
    requires
        digit <= 9,
    ensures
        text@ == seq![digit_byte(digit as int) as char],
{
    proof {
        reveal_strlit("0");
        reveal_strlit("1");
        reveal_strlit("2");
        reveal_strlit("3");
        reveal_strlit("4");
        reveal_strlit("5");
        reveal_strlit("6");
        reveal_strlit("7");
        reveal_strlit("8");
        reveal_strlit("9");
    }
    let text = if digit == 0 {
        "0"
    } else if digit == 1 {
        "1"
    } else if digit == 2 {
        "2"
    } else if digit == 3 {
        "3"
    } else if digit == 4 {
        "4"
    } else if digit == 5 {
        "5"
    } else if digit == 6 {
        "6"
    } else if digit == 7 {
        "7"
    } else if digit == 8 {
        "8"
    } else {
        "9"
    };
    assert(text@ =~= seq![digit_byte(digit as int) as char]);
    text
}

/// The character that writes `digit`.
pub open spec fn digit_char(digit: int) -> char {
    digit_byte(digit) as char
}

/// `n` written in decimal digits, without leading zeros.
pub open spec fn decimal(n: nat) -> Seq<char>
    decreases n,
{
    if n < 10 {
        seq![digit_char(n as int)]
    } else {
        decimal(n / 10).push(digit_char((n % 10) as int))
    }
}

/// `n` written in decimal digits, with a minus sign in front when it is
/// negative.
pub open spec fn integer_text(n: int) -> Seq<char> {
    if n < 0 {
        seq!['-'] + decimal((-n) as nat)
    } else {
        decimal(n as nat)
    }
}

/// An amount of `cents` minor units written in major units with two
/// decimal places, with a minus sign in front when it is negative.
pub open spec fn money_text(cents: int) -> Seq<char> {
    let size = if cents < 0 {
        -cents
    } else {
        cents
    };
    let sign = if cents < 0 {
        seq!['-']
    } else {
        Seq::<char>::empty()
    };
    sign + decimal((size / 100) as nat) + seq![
        '.',
        digit_char(size / 10 % 10),
        digit_char(size % 10),
    ]
}

/// Appends `n` in decimal digits.
pub fn push_decimal(text: &mut String, n: u64)
    ensures
        final(text)@ == old(text)@ + decimal(n as nat),
    decreases n,
{
    if n >= 10 {
        push_decimal(text, n / 10);
    }
    text.append(digit_str((n % 10) as u8));
    assert(text@ == old(text)@ + decimal(n as nat));
}

/// The size of `n`: `n` without its sign.
fn size_of(n: i64) -> (size: u64)
    ensures
        size == if n < 0 {
            -n
        } else {
            n as int
        },
{
    if n < 0 {
        (-(n + 1)) as u64 + 1
    } else {
        n as u64
    }
}

/// Appends `n` in decimal digits, with its sign when it is negative.
pub fn push_integer(text: &mut String, n: i64)
    ensures
        final(text)@ == old(text)@ + integer_text(n as int),
{
    proof {
        reveal_strlit("-");
    }
    if n < 0 {
        text.append("-");
        assert(text@ == old(text)@ + seq!['-']);
    }
    push_decimal(text, size_of(n));
    assert(text@ == old(text)@ + integer_text(n as int));
}

/// Appends an amount of `cents` minor units, written in major units
/// with two decimal places.
pub fn push_money(text: &mut String, cents: i64)
    ensures
        final(text)@ == old(text)@ + money_text(cents as int),
{
    proof {
        reveal_strlit("-");
        reveal_strlit(".");
    }
    let size = size_of(cents);
    if cents < 0 {
        text.append("-");
        assert(text@ == old(text)@ + seq!['-']);
    }
    push_decimal(text, size / 100);
    text.append(".");
    text.append(digit_str((size / 10 % 10) as u8));
    text.append(digit_str((size % 10) as u8));
    assert(text@ == old(text)@ + money_text(cents as int));
}

} // verus!
