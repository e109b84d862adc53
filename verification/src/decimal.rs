//! Decimal numerals: the text of a placeholder.

use vstd::prelude::*;
use vstd::string::*;

verus! {

/// The character that writes the digit `d`, for `d` below ten.
pub open spec fn digit_char(d: nat) -> char {
    if d == 0 {
        '0'
    } else if d == 1 {
        '1'
    } else if d == 2 {
        '2'
    } else if d == 3 {
        '3'
    } else if d == 4 {
        '4'
    } else if d == 5 {
        '5'
    } else if d == 6 {
        '6'
    } else if d == 7 {
        '7'
    } else if d == 8 {
        '8'
    } else {
        '9'
    }
}

/// The decimal numeral of `n`: most significant digit first, no sign, no
/// leading zero, and the single digit `0` for zero.
pub open spec fn decimal(n: nat) -> Seq<char>
    decreases n,
{
    if n < 10 {
        seq![digit_char(n)]
    } else {
        decimal(n / 10).push(digit_char(n % 10))
    }
}

/// Whether `c` is one of the ten digits.
pub open spec fn is_digit(c: char) -> bool {
    c == '0' || c == '1' || c == '2' || c == '3' || c == '4' || c == '5' || c == '6' || c == '7'
        || c == '8' || c == '9'
}

/// The digit that `c` writes; zero for a character that writes none.
pub open spec fn digit_value(c: char) -> nat {
    if c == '1' {
        1
    } else if c == '2' {
        2
    } else if c == '3' {
        3
    } else if c == '4' {
        4
    } else if c == '5' {
        5
    } else if c == '6' {
        6
    } else if c == '7' {
        7
    } else if c == '8' {
        8
    } else if c == '9' {
        9
    } else {
        0
    }
}

/// The number that a row of digits writes, read as a decimal numeral.
pub open spec fn numeral_value(text: Seq<char>) -> nat
    decreases text.len(),
{
    if text.len() == 0 {
        0
    } else {
        numeral_value(text.drop_last()) * 10 + digit_value(text.last())
    }
}

/// Whether `text` is a decimal numeral as `decimal` writes them: at least one
/// character, digits only, and no leading zero but in `0` itself.
pub open spec fn is_numeral(text: Seq<char>) -> bool {
    &&& text.len() >= 1
    &&& forall|i: int| 0 <= i < text.len() ==> is_digit(#[trigger] text[i])
    &&& text.len() > 1 ==> text[0] != '0'
}

/// Reading a numeral gives back the number that it was written for.
pub proof fn lemma_numeral_value_of_decimal(n: nat)
    ensures
        numeral_value(decimal(n)) == n,
    decreases n,
{
    if n < 10 {
        assert(decimal(n).drop_last() =~= Seq::<char>::empty());
        assert(numeral_value(decimal(n).drop_last()) == 0);
        assert(decimal(n).last() == digit_char(n));
    } else {
        lemma_numeral_value_of_decimal(n / 10);
        assert(decimal(n).drop_last() =~= decimal(n / 10));
        assert(decimal(n).last() == digit_char(n % 10));
    }
}

/// Two numbers with the same numeral are the same number.
pub proof fn lemma_decimal_injective(a: nat, b: nat)
    requires
        decimal(a) == decimal(b),
    ensures
        a == b,
{
    lemma_numeral_value_of_decimal(a);
    lemma_numeral_value_of_decimal(b);
}

/// What `decimal` writes is a numeral, and it is `0` for zero only.
pub proof fn lemma_decimal_is_numeral(n: nat)
    ensures
        is_numeral(decimal(n)),
        decimal(n)[0] == '0' <==> n == 0,
    decreases n,
{
    if n >= 10 {
        lemma_decimal_is_numeral(n / 10);
        let shorter = decimal(n / 10);
        assert forall|i: int| 0 <= i < decimal(n).len() implies is_digit(
            #[trigger] decimal(n)[i],
        ) by {
            if i < shorter.len() {
                assert(decimal(n)[i] == shorter[i]);
            }
        }
        assert(decimal(n)[0] == shorter[0]);
    }
}

/// Writing the number that a numeral reads as gives the numeral back.
pub proof fn lemma_decimal_of_numeral_value(text: Seq<char>)
    requires
        is_numeral(text),
    ensures
        decimal(numeral_value(text)) == text,
    decreases text.len(),
{
    let front = text.drop_last();
    let digit = text.last();
    assert(is_digit(digit));
    assert(digit_char(digit_value(digit)) == digit);
    if text.len() == 1 {
        assert(front =~= Seq::<char>::empty());
        assert(numeral_value(front) == 0);
        assert(decimal(numeral_value(text)) =~= text);
    } else {
        assert(front[0] == text[0]);
        assert forall|i: int| 0 <= i < front.len() implies is_digit(#[trigger] front[i]) by {
            assert(front[i] == text[i]);
        }
        assert(is_numeral(front));
        lemma_decimal_of_numeral_value(front);
        lemma_decimal_is_numeral(numeral_value(front));
        assert(numeral_value(front) != 0);
        assert(decimal(numeral_value(text)) =~= text);
    }
}

/// A text is the numeral of `n` exactly when it is a numeral and reads as `n`.
pub proof fn lemma_numeral_of(text: Seq<char>, n: nat)
    ensures
        text == decimal(n) <==> is_numeral(text) && numeral_value(text) == n,
{
    if text == decimal(n) {
        lemma_decimal_is_numeral(n);
        lemma_numeral_value_of_decimal(n);
    }
    if is_numeral(text) {
        lemma_decimal_of_numeral_value(text);
    }
}

/// The one-character text of a digit.
fn digit_text(d: usize) -> (text: &'static str)
    requires
        d < 10,
    ensures
        text@ == seq![digit_char(d as nat)],
{
    proof {
        reveal_strlit("0");
        reveal_strlit("1");
        reveal_strlit("2");
        reveal_strlit("3");
        reveal_strlit("4");
        reveal_strlit("5");
        reveal_strlit("6");
        reveal_strlit("7");
        reveal_strlit("8");
        reveal_strlit("9");
    }
    let text = if d == 0 {
        "0"
    } else if d == 1 {
        "1"
    } else if d == 2 {
        "2"
    } else if d == 3 {
        "3"
    } else if d == 4 {
        "4"
    } else if d == 5 {
        "5"
    } else if d == 6 {
        "6"
    } else if d == 7 {
        "7"
    } else if d == 8 {
        "8"
    } else {
        "9"
    };
    assert(text@ =~= seq![digit_char(d as nat)]);
    text
}

/// The text of the placeholder with the given index: its decimal numeral.
pub fn placeholder(index: usize) -> (text: String)
    ensures
        text@ == decimal(index as nat),
    decreases index,
{
    if index < 10 {
        String::from_str(digit_text(index))
    } else {
        let mut text = placeholder(index / 10);
        text.append(digit_text(index % 10));
        assert(text@ =~= decimal(index as nat));
        text
    }
}

/// A row of digits reads as no less than any front part of it.
pub proof fn lemma_numeral_value_grows(text: Seq<char>, front: int)
    requires
        0 <= front <= text.len(),
    ensures
        numeral_value(text.take(front)) <= numeral_value(text),
    decreases text.len() - front,
{
    if front == text.len() {
        assert(text.take(front) =~= text);
    } else {
        lemma_numeral_value_grows(text, front + 1);
        assert(text.take(front + 1).drop_last() =~= text.take(front));
    }
}

/// The digit that a character writes, if it writes one.
fn digit_of(c: char) -> (digit: Option<usize>)
    ensures
        digit is Some <==> is_digit(c),
        digit matches Some(d) ==> d == digit_value(c),
{
    if c == '0' {
        Some(0)
    } else if c == '1' {
        Some(1)
    } else if c == '2' {
        Some(2)
    } else if c == '3' {
        Some(3)
    } else if c == '4' {
        Some(4)
    } else if c == '5' {
        Some(5)
    } else if c == '6' {
        Some(6)
    } else if c == '7' {
        Some(7)
    } else if c == '8' {
        Some(8)
    } else if c == '9' {
        Some(9)
    } else {
        None
    }
}

/// The index of the placeholder that `text` writes, if it writes one: the
/// number whose decimal numeral it is.
pub open spec fn placeholder_index(text: Seq<char>) -> Option<nat> {
    if is_numeral(text) {
        Some(numeral_value(text))
    } else {
        None
    }
}

/// The index of the placeholder that `text` writes, as far as indices go:
/// nothing for a numeral of a number that is no index of any record.
pub open spec fn index_of(text: Seq<char>) -> Option<usize> {
    match placeholder_index(text) {
        Some(index) => if index <= usize::MAX {
            Some(index as usize)
        } else {
            None
        },
        None => None,
    }
}

/// Reads the index of a placeholder back from its text.
pub fn parse_placeholder(text: &str) -> (index: Option<usize>)
    ensures
        index == index_of(text@),
{
    let len: usize = text.unicode_len();
    if len == 0 {
        return None;
    }
    if len > 1 && text.get_char(0) == '0' {
        return None;
    }
    let mut value: usize = 0;
    let mut i: usize = 0;
    assert(text@.take(0) =~= Seq::<char>::empty());
    while i < len
        invariant
            len == text@.len(),
            len >= 1,
            len > 1 ==> text@[0] != '0',
            i <= len,
            forall|j: int| 0 <= j < i ==> is_digit(#[trigger] text@[j]),
            value == numeral_value(text@.take(i as int)),
        decreases len - i,
    {
        let c = text.get_char(i);
        proof {
            assert(text@.take(i as int + 1).drop_last() =~= text@.take(i as int));
            assert(text@.take(i as int + 1).last() == c);
            lemma_numeral_value_grows(text@, i as int + 1);
        }
        let digit: usize = match digit_of(c) {
            Some(digit) => digit,
            None => {
                return None;
            },
        };
        let shifted: usize = match value.checked_mul(10) {
            Some(shifted) => shifted,
            None => {
                return None;
            },
        };
        value = match shifted.checked_add(digit) {
            Some(sum) => sum,
            None => {
                return None;
            },
        };
        i += 1;
    }
    assert(text@.take(i as int) =~= text@);
    Some(value)
}

} // verus!
