//! Decimal rendering of unsigned integers.

use vstd::prelude::*;

use crate::chars::string_push;

verus! {

/// The ASCII digit for `d`, which is below ten.
pub open spec fn digit_char(d: nat) -> char {
    ((48 + d) as u8) as char
}

/// The decimal digits of `n`, most significant first, with no leading zero
/// (zero itself is written `0`).
pub open spec fn decimal(n: nat) -> Seq<char>
    decreases n,
{
    if n < 10 {
        seq![digit_char(n)]
    } else {
        decimal(n / 10).push(digit_char(n % 10))
    }
}

/// `n`, which is below a hundred, written with at least two digits.
pub open spec fn two_digits(n: nat) -> Seq<char> {
    if n < 10 {
        seq!['0'].add(decimal(n))
    } else {
        decimal(n)
    }
}

/// Whether `c` is an ASCII digit.
pub open spec fn is_digit(c: char) -> bool {
    '0' <= c <= '9'
}

/// Decimal text is made of digits, one for a number below ten and at least
/// two from ten on, and its first digit is `0` only for zero itself.
pub proof fn lemma_decimal_shape(n: nat)
    ensures
        decimal(n).len() >= 1,
        n >= 10 ==> decimal(n).len() >= 2,
        forall|i: int| 0 <= i < decimal(n).len() ==> is_digit(#[trigger] decimal(n)[i]),
        n > 0 ==> decimal(n)[0] != '0',
    decreases n,
{
    if n >= 10 {
        lemma_decimal_shape(n / 10);
        let p = decimal(n / 10);
        assert forall|i: int| 0 <= i < decimal(n).len() implies is_digit(#[trigger] decimal(n)[i]) by {
            if i < p.len() {
                assert(decimal(n)[i] == p[i]);
            }
        }
        assert(decimal(n)[0] == p[0]);
    }
}

/// Different numbers have different decimal text.
pub proof fn lemma_decimal_injective(a: nat, b: nat)
    requires
        decimal(a) == decimal(b),
    ensures
        a == b,
    decreases a,
{
    lemma_decimal_shape(a);
    lemma_decimal_shape(b);
    if a >= 10 && b >= 10 {
        assert(decimal(a).drop_last() == decimal(a / 10));
        assert(decimal(b).drop_last() == decimal(b / 10));
        lemma_decimal_injective(a / 10, b / 10);
        assert(decimal(a).last() == digit_char(a % 10));
        assert(decimal(b).last() == digit_char(b % 10));
    }
}

/// Two-digit text is two digits long, and different numbers below a hundred
/// have different two-digit text.
pub proof fn lemma_two_digits(a: nat, b: nat)
    requires
        a < 100,
        b < 100,
    ensures
        two_digits(a).len() == 2,
        forall|i: int| 0 <= i < 2 ==> is_digit(#[trigger] two_digits(a)[i]),
        two_digits(a) == two_digits(b) ==> a == b,
{
    lemma_decimal_shape(a);
    lemma_decimal_shape(b);
    assert(decimal(a / 10).len() >= 1) by {
        lemma_decimal_shape(a / 10);
    }
    if a >= 10 {
        assert(a / 10 < 10);
        assert(decimal(a / 10).len() == 1);
    }
    if two_digits(a) == two_digits(b) {
        if a < 10 && b < 10 {
            assert(two_digits(a).drop_first() == decimal(a));
            assert(two_digits(b).drop_first() == decimal(b));
            lemma_decimal_injective(a, b);
        } else if a >= 10 && b >= 10 {
            lemma_decimal_injective(a, b);
        } else if a < 10 {
            assert(two_digits(a)[0] == '0');
            assert(two_digits(b)[0] == decimal(b)[0]);
        } else {
            assert(two_digits(b)[0] == '0');
            assert(two_digits(a)[0] == decimal(a)[0]);
        }
    }
}

/// The number a string of ASCII digits spells, most significant first.
pub open spec fn digits_value(ds: Seq<char>) -> nat
    decreases ds.len(),
{
    if ds.len() == 0 {
        0
    } else {
        digits_value(ds.drop_last()) * 10 + ((ds.last() as int - '0' as int) as nat)
    }
}

proof fn lemma_digit_value(d: nat)
    requires
        d < 10,
    ensures
        digit_char(d) as int - '0' as int == d,
{
    let b = (48 + d) as u8;
    assert(b as int == 48 + d);
    assert((b as char) as int == b as int);
}

/// Decimal text reads back as the number it was written from, and so does
/// two-digit text.
pub proof fn lemma_decimal_reads_back(n: nat)
    ensures
        digits_value(decimal(n)) == n,
        n < 100 ==> digits_value(two_digits(n)) == n,
    decreases n,
{
    lemma_digit_value(n % 10);
    if n >= 10 {
        lemma_decimal_reads_back(n / 10);
        assert(decimal(n).drop_last() == decimal(n / 10));
        assert(decimal(n).last() == digit_char(n % 10));
        assert(digits_value(decimal(n)) == digits_value(decimal(n / 10)) * 10 + (n % 10));
        assert((n / 10) * 10 + n % 10 == n);
    } else {
        assert(decimal(n).drop_last() == Seq::<char>::empty());
        assert(decimal(n).last() == digit_char(n));
        assert(digits_value(decimal(n)) == digits_value(Seq::<char>::empty()) * 10 + n);
    }
    if n < 100 {
        if n < 10 {
            let t = two_digits(n);
            assert(t.drop_last() == seq!['0']);
            assert(t.last() == digit_char(n));
            assert(seq!['0'].drop_last() == Seq::<char>::empty());
            assert(digits_value(seq!['0']) == 0);
            assert(digits_value(t) == n);
        } else {
            lemma_decimal_reads_back(n / 10);
        }
    }
}

fn digit(d: u64) -> (c: char)
    requires
        d < 10,
    ensures
        c == digit_char(d as nat),
{
    let b: u8 = 48u8 + (d as u8);
    b as char
}

/// Appends the decimal digits of `n` to `s`.
pub fn push_decimal(s: &mut String, n: u64)
    ensures
        final(s)@ == old(s)@ + decimal(n as nat),
    decreases n,
{
    if n >= 10 {
        push_decimal(s, n / 10);
    }
    let c = digit(n % 10);
    string_push(s, c);
    assert(s@ == old(s)@ + decimal(n as nat)) by {
        if n >= 10 {
            assert(old(s)@ + decimal(n as nat) == (old(s)@ + decimal((n / 10) as nat)).push(c));
        }
    }
}

/// Appends `n`, which is below a hundred, with at least two digits.
pub fn push_two_digits(s: &mut String, n: u64)
    requires
        n < 100,
    ensures
        final(s)@ == old(s)@ + two_digits(n as nat),
{
    if n < 10 {
        string_push(s, '0');
    }
    push_decimal(s, n);
    assert(s@ == old(s)@ + two_digits(n as nat));
}

} // verus!
