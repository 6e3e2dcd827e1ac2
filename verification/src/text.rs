//! Texts that the bindings put together.
use vstd::prelude::*;
use vstd::string::*;

verus! {

/// The character of a decimal digit.
pub open spec fn digit_char(digit: nat) -> char {
    ('0' as nat + digit) as char
}

/// A number in decimal digits, without leading zeros.
pub open spec fn decimal(number: nat) -> Seq<char>
    decreases number,
{
    if number < 10 {
        seq![digit_char(number)]
    } else {
        decimal(number / 10).push(digit_char(number % 10))
    }
}

/// The text of a decimal digit.
fn digit_text(digit: u64) -> (text: &'static str)
    requires
        digit < 10,
    ensures
        text@ == seq![digit_char(digit as nat)],
{
    proof {
        reveal_strlit("0");
        reveal_strlit("1");
        reveal_strlit("2");
        reveal_strlit("3");
        reveal_strlit("4");
        reveal_strlit("5");
        reveal_strlit("6");
        reveal_strlit("7");
        reveal_strlit("8");
        reveal_strlit("9");
    }
    match digit {
        0 => "0",
        1 => "1",
        2 => "2",
        3 => "3",
        4 => "4",
        5 => "5",
        6 => "6",
        7 => "7",
        8 => "8",
        _ => "9",
    }
}

/// A number in decimal digits.
pub fn decimal_text(number: u64) -> (text: String)
    ensures
        text@ == decimal(number as nat),
    decreases number,
{
    if number < 10 {
        digit_text(number).to_owned()
    } else {
        let mut text = decimal_text(number / 10);
        let ghost before = text@;
        let last = digit_text(number % 10);
        text.append(last);
        assert(text@ == before.push(digit_char((number % 10) as nat)));
        text
    }
}

/// One text after another.
pub fn joined(first: &str, second: &str) -> (text: String)
    ensures
        text@ == first@ + second@,
{
    let mut text = first.to_owned();
    text.append(second);
    text
}

/// Whether two texts are the same.
pub fn same_text(one: &str, other: &str) -> (same: bool)
    ensures
        same == (one@ == other@),
{
    let one: String = one.to_owned();
    let other: String = other.to_owned();
    one == other
}

/// No two digits share a character.
proof fn lemma_digits_differ(one: nat, other: nat)
    requires
        one < 10,
        other < 10,
        digit_char(one) == digit_char(other),
    ensures
        one == other,
{
}

/// The decimal digits of a number tell it from every other number.
pub proof fn law_decimal_is_injective(one: nat, other: nat)
    requires
        decimal(one) == decimal(other),
    ensures
        one == other,
    decreases one,
{
    lemma_decimal_is_not_empty(one / 10);
    lemma_decimal_is_not_empty(other / 10);
    assert(decimal(one).last() == digit_char(one % 10));
    assert(decimal(other).last() == digit_char(other % 10));
    lemma_digits_differ(one % 10, other % 10);
    if one >= 10 && other >= 10 {
        assert(decimal(one).drop_last() == decimal(one / 10));
        assert(decimal(other).drop_last() == decimal(other / 10));
        law_decimal_is_injective(one / 10, other / 10);
    }
}

/// A number has at least one digit.
proof fn lemma_decimal_is_not_empty(number: nat)
    ensures
        decimal(number).len() > 0,
{
}

/// The number that decimal digits stand for.
pub open spec fn digits_value(text: Seq<char>) -> nat
    decreases text.len(),
{
    if text.len() == 0 {
        0
    } else {
        10 * digits_value(text.drop_last()) + (text.last() as nat - '0' as nat) as nat
    }
}

/// The decimal digits of a number are digits, the first of several is not zero, and they stand for the
/// number.
pub proof fn law_decimal_stands_for_the_number(number: nat)
    ensures
        digits_value(decimal(number)) == number,
        forall|i: int| 0 <= i < decimal(number).len() ==> '0' <= #[trigger] decimal(number)[i] <= '9',
        decimal(number).len() > 1 ==> decimal(number)[0] != '0',
        decimal(number).len() > 0,
    decreases number,
{
    if number < 10 {
        let text = decimal(number);
        assert(text.drop_last() =~= Seq::<char>::empty());
        assert(digits_value(text.drop_last()) == 0);
    } else {
        law_decimal_stands_for_the_number(number / 10);
        let text = decimal(number);
        assert(text.drop_last() =~= decimal(number / 10));
        assert(decimal(number / 10)[0] != '0') by {
            if decimal(number / 10).len() == 1 {
                assert(digits_value(decimal(number / 10).drop_last()) == 0);
            }
        }
    }
}

} // verus!
