use vstd::prelude::*;

verus! {

/// The character of a decimal digit.
pub open spec fn digit_char(d: nat) -> char {
    if d == 0 {
        '0'
    } else if d == 1 {
        '1'
    } else if d == 2 {
        '2'
    } else if d == 3 {
        '3'
    } else if d == 4 {
        '4'
    } else if d == 5 {
        '5'
    } else if d == 6 {
        '6'
    } else if d == 7 {
        '7'
    } else if d == 8 {
        '8'
    } else {
        '9'
    }
}

/// The decimal digits of a natural number, most significant first, without
/// leading zeros (zero is written "0").
pub open spec fn nat_digits(n: nat) -> Seq<char>
    decreases n,
{
    if n < 10 {
        seq![digit_char(n)]
    } else {
        nat_digits(n / 10) + seq![digit_char(n % 10)]
    }
}

/// An integer written in decimal, with a leading '-' when it is negative.
pub open spec fn decimal_text(n: int) -> Seq<char> {
    if n < 0 {
        seq!['-'] + nat_digits((-n) as nat)
    } else {
        nat_digits(n as nat)
    }
}

/// The value of a decimal digit character.
pub open spec fn digit_value(c: char) -> int {
    (c as int) - ('0' as int)
}

/// A character is a decimal digit.
pub open spec fn is_digit(c: char) -> bool {
    '0' <= c && c <= '9'
}

/// The value of a string of decimal digits, most significant first.
pub open spec fn digits_value(s: Seq<char>) -> int
    decreases s.len(),
{
    if s.len() == 0 {
        0
    } else {
        digits_value(s.drop_last()) * 10 + digit_value(s.last())
    }
}

/// `s` reads as the integer `n`: digits, optionally after one '-', with no
/// leading zero unless the number is the single digit "0".
#[verifier::opaque]
pub open spec fn reads_as_integer(s: Seq<char>, n: int) -> bool {
    let digits = if s.len() > 0 && s[0] == '-' {
        s.skip(1)
    } else {
        s
    };
    &&& digits.len() > 0
    &&& forall|i: int| 0 <= i < digits.len() ==> is_digit(#[trigger] digits[i])
    &&& (digits.len() > 1 ==> digits[0] != '0')
    &&& if s.len() > 0 && s[0] == '-' {
        digits[0] != '0' && n == -digits_value(digits)
    } else {
        n == digits_value(digits)
    }
}

proof fn lemma_digit_char_value(d: nat)
    requires
        d < 10,
    ensures
        is_digit(digit_char(d)),
        digit_value(digit_char(d)) == d,
        (digit_char(d) == '0') == (d == 0),
{
    assert(('0' as int) == 48);
    assert(('9' as int) == 57);
    if d == 1 {
        assert(('1' as int) == 49);
    } else if d == 2 {
        assert(('2' as int) == 50);
    } else if d == 3 {
        assert(('3' as int) == 51);
    } else if d == 4 {
        assert(('4' as int) == 52);
    } else if d == 5 {
        assert(('5' as int) == 53);
    } else if d == 6 {
        assert(('6' as int) == 54);
    } else if d == 7 {
        assert(('7' as int) == 55);
    } else if d == 8 {
        assert(('8' as int) == 56);
    }
}

proof fn lemma_nat_digits_read_back(n: nat)
    ensures
        nat_digits(n).len() > 0,
        forall|i: int| 0 <= i < nat_digits(n).len() ==> is_digit(#[trigger] nat_digits(n)[i]),
        nat_digits(n).len() > 1 ==> nat_digits(n)[0] != '0',
        n > 0 ==> nat_digits(n)[0] != '0',
        digits_value(nat_digits(n)) == n,
    decreases n,
{
    if n >= 10 {
        lemma_nat_digits_read_back(n / 10);
        lemma_digit_char_value(n % 10);
        let s = nat_digits(n);
        assert(s.drop_last() =~= nat_digits(n / 10));
        assert(s.last() == digit_char(n % 10));
        assert(s[0] == nat_digits(n / 10)[0]);
        assert((n / 10) * 10 + n % 10 == n);
        assert(digits_value(s) == digits_value(s.drop_last()) * 10 + digit_value(s.last()));
        assert(digits_value(s.drop_last()) == n / 10);
    } else {
        let s = nat_digits(n);
        assert(digits_value(s) == digits_value(s.drop_last()) * 10 + digit_value(s.last()));
        assert(digits_value(s.drop_last()) == 0);
        lemma_digit_char_value(n);
        assert(nat_digits(n).drop_last() =~= Seq::<char>::empty());
    }
}

/// Decimal text reads back as the number it was made from: for every
/// integer, `decimal_text` gives digits (after a '-' exactly when the
/// number is negative) without leading zeros, whose value is the number.
pub proof fn lemma_decimal_text_reads_back(n: int)
    ensures
        reads_as_integer(decimal_text(n), n),
        decimal_text(n).len() > 0,
        (decimal_text(n)[0] == '-') == (n < 0),
        forall|i: int|
            0 <= i < decimal_text(n).len() ==> (i > 0 ==> is_digit(#[trigger] decimal_text(n)[i])) && (
            is_digit(decimal_text(n)[i]) || decimal_text(n)[i] == '-'),
{
    reveal(reads_as_integer);
    if n < 0 {
        let m = (-n) as nat;
        lemma_nat_digits_read_back(m);
        let s = decimal_text(n);
        assert(s.skip(1) =~= nat_digits(m));
        assert forall|i: int| 0 < i < s.len() implies is_digit(#[trigger] s[i]) by {
            assert(s[i] == nat_digits(m)[i - 1]);
        }
    } else {
        lemma_nat_digits_read_back(n as nat);
    }
}

fn push_digit(s: &mut String, d: u64)
    requires
        d < 10,
    ensures
        final(s)@ == old(s)@.push(digit_char(d as nat)),
{
    let lit = if d == 0 {
        proof { reveal_strlit("0"); }
        "0"
    } else if d == 1 {
        proof { reveal_strlit("1"); }
        "1"
    } else if d == 2 {
        proof { reveal_strlit("2"); }
        "2"
    } else if d == 3 {
        proof { reveal_strlit("3"); }
        "3"
    } else if d == 4 {
        proof { reveal_strlit("4"); }
        "4"
    } else if d == 5 {
        proof { reveal_strlit("5"); }
        "5"
    } else if d == 6 {
        proof { reveal_strlit("6"); }
        "6"
    } else if d == 7 {
        proof { reveal_strlit("7"); }
        "7"
    } else if d == 8 {
        proof { reveal_strlit("8"); }
        "8"
    } else {
        proof { reveal_strlit("9"); }
        "9"
    };
    assert(lit@ =~= seq![digit_char(d as nat)]);
    s.append(lit);
    assert(s@ =~= old(s)@.push(digit_char(d as nat)));
}

fn push_nat_digits(s: &mut String, n: u64)
    ensures
        final(s)@ == old(s)@ + nat_digits(n as nat),
    decreases n,
{
    if n >= 10 {
        push_nat_digits(s, n / 10);
    }
    push_digit(s, n % 10);
    assert(s@ =~= old(s)@ + nat_digits(n as nat));
}

/// Appends `n` written in decimal (as `format!("{}", n)` writes an `i64`).
pub fn push_decimal(s: &mut String, n: i64)
    ensures
        final(s)@ == old(s)@ + decimal_text(n as int),
        final(s)@.take(old(s)@.len() as int) == old(s)@,
        reads_as_integer(final(s)@.skip(old(s)@.len() as int), n as int),
{
    proof {
        lemma_decimal_text_reads_back(n as int);
    }
    let ghost start = s@;
    if n < 0 {
        proof { reveal_strlit("-"); }
        s.append("-");
        let wide: i128 = n as i128;
        let magnitude: u64 = (-wide) as u64;
        push_nat_digits(s, magnitude);
        assert(s@ =~= old(s)@ + decimal_text(n as int));
    } else {
        push_nat_digits(s, n as u64);
    }
    assert(s@.take(start.len() as int) =~= start);
    assert(s@.skip(start.len() as int) =~= decimal_text(n as int));
}

} // verus!
