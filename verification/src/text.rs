//! Decimal numbers of a fixed width, as file names hold them.

use vstd::prelude::*;

verus! {

/// The decimal digit `d` as a character.
pub open spec fn digit_char(d: nat) -> char {
    (d + 48) as char
}

/// The decimal digits of `value`, without leading zeros.
pub open spec fn decimal(value: nat) -> Seq<char>
    decreases value,
{
    if value < 10 {
        seq![digit_char(value)]
    } else {
        decimal(value / 10).push(digit_char(value % 10))
    }
}

/// The decimal digits of `value` behind as many zeros as it takes to fill
/// `width` places. A number that needs more places is not cut.
pub open spec fn padded_decimal(value: nat, width: nat) -> Seq<char> {
    if decimal(value).len() < width {
        Seq::new((width - decimal(value).len()) as nat, |i: int| '0') + decimal(value)
    } else {
        decimal(value)
    }
}

/// A decimal digit.
pub open spec fn is_digit(c: char) -> bool {
    '0' <= c <= '9'
}

/// The number that a string of digits stands for.
pub open spec fn decimal_value(digits: Seq<char>) -> nat
    decreases digits.len(),
{
    if digits.len() == 0 {
        0
    } else {
        10 * decimal_value(digits.drop_last()) + (digits.last() as nat - 48) as nat
    }
}

/// Ten to the power of `n`.
pub open spec fn power_of_ten(n: nat) -> nat
    decreases n,
{
    if n == 0 {
        1
    } else {
        10 * power_of_ten((n - 1) as nat)
    }
}

/// `a` comes before `b` in the order of dictionaries.
pub open spec fn text_before(a: Seq<char>, b: Seq<char>) -> bool {
    exists|k: int|
        0 <= k <= a.len() && k <= b.len() && #[trigger] a.take(k) == b.take(k) && if k == a.len() {
            k < b.len()
        } else {
            k < b.len() && a[k] < b[k]
        }
}

pub proof fn lemma_decimal(value: nat)
    ensures
        decimal(value).len() > 0,
        forall|i: int| 0 <= i < decimal(value).len() ==> is_digit(#[trigger] decimal(value)[i]),
        decimal_value(decimal(value)) == value,
    decreases value,
{
    reveal_with_fuel(decimal_value, 2);
    if value < 10 {
        assert(decimal(value).drop_last() =~= Seq::<char>::empty());
    } else {
        lemma_decimal(value / 10);
        assert(decimal(value).drop_last() =~= decimal(value / 10));
    }
}

proof fn lemma_leading_zeros(zeros: nat, digits: Seq<char>)
    ensures
        decimal_value(Seq::new(zeros, |i: int| '0') + digits) == decimal_value(digits),
    decreases zeros + digits.len(),
{
    let all = Seq::new(zeros, |i: int| '0') + digits;
    if digits.len() > 0 {
        assert(all.drop_last() =~= Seq::new(zeros, |i: int| '0') + digits.drop_last());
        lemma_leading_zeros(zeros, digits.drop_last());
    } else if zeros > 0 {
        assert(all.drop_last() =~= Seq::new((zeros - 1) as nat, |i: int| '0') + digits);
        lemma_leading_zeros((zeros - 1) as nat, digits);
    } else {
        assert(all =~= digits);
    }
}

/// A padded number holds only digits and can be read back.
pub proof fn padded_decimal_round_trips(value: nat, width: nat)
    ensures
        padded_decimal(value, width).len() >= width,
        padded_decimal(value, width).len() > 0,
        forall|i: int|
            0 <= i < padded_decimal(value, width).len() ==> is_digit(
                #[trigger] padded_decimal(value, width)[i],
            ),
        decimal_value(padded_decimal(value, width)) == value,
{
    lemma_decimal(value);
    if decimal(value).len() < width {
        lemma_leading_zeros((width - decimal(value).len()) as nat, decimal(value));
    }
}

proof fn lemma_decimal_len(value: nat, width: nat)
    requires
        value < power_of_ten(width),
        width > 0,
    ensures
        decimal(value).len() <= width,
    decreases width,
{
    if value >= 10 {
        if width == 1 {
            reveal_with_fuel(power_of_ten, 2);
        } else {
            lemma_decimal_len(value / 10, (width - 1) as nat);
        }
    }
}

/// A number that fits its width takes up exactly that width.
pub proof fn lemma_padded_len(value: nat, width: nat)
    requires
        value < power_of_ten(width),
        width > 0,
    ensures
        padded_decimal(value, width).len() == width,
{
    lemma_decimal_len(value, width);
}

proof fn lemma_decimal_value_bound(digits: Seq<char>)
    requires
        forall|i: int| 0 <= i < digits.len() ==> is_digit(#[trigger] digits[i]),
    ensures
        decimal_value(digits) < power_of_ten(digits.len()),
    decreases digits.len(),
{
    if digits.len() > 0 {
        lemma_decimal_value_bound(digits.drop_last());
        assert(is_digit(digits[digits.len() - 1]));
    }
}

/// Among strings of digits of one length, the smaller number comes first in the
/// order of dictionaries.
proof fn lemma_digits_order(a: Seq<char>, b: Seq<char>)
    requires
        a.len() == b.len(),
        forall|i: int| 0 <= i < a.len() ==> is_digit(#[trigger] a[i]),
        forall|i: int| 0 <= i < b.len() ==> is_digit(#[trigger] b[i]),
        decimal_value(a) < decimal_value(b),
    ensures
        exists|k: int| 0 <= k < a.len() && #[trigger] a.take(k) == b.take(k) && a[k] < b[k],
    decreases a.len(),
{
    if a.len() > 0 {
        let x = a.drop_last();
        let y = b.drop_last();
        let last = a.len() - 1;
        assert(is_digit(a[last]) && is_digit(b[last]));
        if decimal_value(x) < decimal_value(y) {
            lemma_digits_order(x, y);
            let k = choose|k: int| 0 <= k < x.len() && #[trigger] x.take(k) == y.take(k) && x[k] < y[k];
            assert(a.take(k) =~= x.take(k));
            assert(b.take(k) =~= y.take(k));
        } else {
            assert(decimal_value(x) == decimal_value(y));
            lemma_digits_equal(x, y);
            assert(a.take(last) =~= x);
            assert(b.take(last) =~= y);
        }
    }
}

/// Strings of digits of one length that stand for one number are equal.
proof fn lemma_digits_equal(a: Seq<char>, b: Seq<char>)
    requires
        a.len() == b.len(),
        forall|i: int| 0 <= i < a.len() ==> is_digit(#[trigger] a[i]),
        forall|i: int| 0 <= i < b.len() ==> is_digit(#[trigger] b[i]),
        decimal_value(a) == decimal_value(b),
    ensures
        a == b,
    decreases a.len(),
{
    if a.len() > 0 {
        let last = a.len() - 1;
        assert(is_digit(a[last]) && is_digit(b[last]));
        lemma_digits_equal(a.drop_last(), b.drop_last());
        assert(a =~= a.drop_last().push(a.last()));
        assert(b =~= b.drop_last().push(b.last()));
    }
    assert(a =~= b);
}

/// Padded numbers that fit their width are ordered as text as they are as
/// numbers.
pub proof fn padded_decimal_keeps_order(a: nat, b: nat, width: nat)
    requires
        a < b < power_of_ten(width),
        width > 0,
    ensures
        exists|k: int|
            0 <= k < width && #[trigger] padded_decimal(a, width).take(k) == padded_decimal(
                b,
                width,
            ).take(k) && padded_decimal(a, width)[k] < padded_decimal(b, width)[k],
{
    lemma_padded_len(a, width);
    lemma_padded_len(b, width);
    padded_decimal_round_trips(a, width);
    padded_decimal_round_trips(b, width);
    lemma_digits_order(padded_decimal(a, width), padded_decimal(b, width));
}

/// The digit `d` as text.
fn digit_text(d: u64) -> (text: &'static str)
    requires
        d < 10,
    ensures
        text@ == seq![digit_char(d as nat)],
{
    proof {
        reveal_strlit("0");
        reveal_strlit("1");
        reveal_strlit("2");
        reveal_strlit("3");
        reveal_strlit("4");
        reveal_strlit("5");
        reveal_strlit("6");
        reveal_strlit("7");
        reveal_strlit("8");
        reveal_strlit("9");
    }
    if d == 0 {
        "0"
    } else if d == 1 {
        "1"
    } else if d == 2 {
        "2"
    } else if d == 3 {
        "3"
    } else if d == 4 {
        "4"
    } else if d == 5 {
        "5"
    } else if d == 6 {
        "6"
    } else if d == 7 {
        "7"
    } else if d == 8 {
        "8"
    } else {
        "9"
    }
}

/// Appends the decimal digits of `value`.
fn append_decimal(text: &mut String, value: u64)
    ensures
        final(text)@ == old(text)@ + decimal(value as nat),
    decreases value,
{
    if value >= 10 {
        append_decimal(text, value / 10);
    }
    text.append(digit_text(value % 10));
    assert(text@ =~= old(text)@ + decimal(value as nat));
}

/// How many decimal digits `value` has.
fn count_digits(value: u64) -> (count: usize)
    ensures
        count == decimal(value as nat).len(),
{
    proof {
        assert(power_of_ten(20) == 100_000_000_000_000_000_000) by {
            reveal_with_fuel(power_of_ten, 21);
        }
        lemma_decimal_len(value as nat, 20);
    }
    let mut rest: u64 = value;
    let mut count: usize = 1;
    while rest >= 10
        invariant
            count + decimal(rest as nat).len() == decimal(value as nat).len() + 1,
            decimal(value as nat).len() <= 20,
        decreases rest,
    {
        proof {
            lemma_decimal((rest / 10) as nat);
        }
        rest = rest / 10;
        count = count + 1;
    }
    count
}

/// Appends `value` as [`padded_decimal`] of the given width.
pub fn append_padded_decimal(text: &mut String, value: u64, width: usize)
    ensures
        final(text)@ == old(text)@ + padded_decimal(value as nat, width as nat),
{
    let ghost before = text@;
    let mut filled: usize = count_digits(value);
    let ghost digits = decimal(value as nat);
    let ghost mut zeros: nat = 0;
    proof {
        reveal_strlit("0");
        assert(before + Seq::new(0, |i: int| '0') =~= before);
    }
    while filled < width
        invariant
            digits.len() == decimal(value as nat).len(),
            zeros == filled - digits.len(),
            filled <= width || zeros == 0,
            "0"@ == seq!['0'],
            text@ == before + Seq::new(zeros, |i: int| '0'),
        decreases width - filled,
    {
        text.append("0");
        assert(text@ =~= before + Seq::new(zeros + 1, |i: int| '0'));
        proof {
            zeros = zeros + 1;
        }
        filled = filled + 1;
    }
    append_decimal(text, value);
    assert(text@ =~= before + padded_decimal(value as nat, width as nat));
}

/// One more digit makes a number ten times as large, and stands at the end of
/// its decimal form; so each digit stands at its place, behind zeros.
pub proof fn one_more_digit_stands_at_the_end(value: nat, digit: nat, width: nat)
    requires
        digit < 10,
        width > 0,
    ensures
        padded_decimal(digit, 1).len() == 1,
        padded_decimal(digit, 1)[0] as nat == 48 + digit,
        padded_decimal(10 * value + digit, width + 1).len() == padded_decimal(value, width).len()
            + 1,
        padded_decimal(10 * value + digit, width + 1).drop_last() == padded_decimal(value, width),
        padded_decimal(10 * value + digit, width + 1).last() as nat == 48 + digit,
{
    let more = 10 * value + digit;
    let long = padded_decimal(more, width + 1);
    let short = padded_decimal(value, width);
    if value > 0 {
        assert(more / 10 == value && more % 10 == digit);
        assert(decimal(more) == decimal(value).push(digit_char(digit)));
        assert(long =~= short.push(digit_char(digit)));
    } else {
        assert(long =~= short.push(digit_char(digit)));
    }
    assert(long.drop_last() =~= short);
}

} // verus!
