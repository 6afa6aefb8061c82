//! How bytes write numbers and words.

use crate::ascii::to_upper;
use crate::offers::uppercase;
use crate::text::{bytes_of, lemma_bytes_of_ascii};
use vstd::arithmetic::power::pow;
use vstd::prelude::*;
use vstd::utf8::is_ascii_chars;

verus! {

/// Decimal digits only.
pub open spec fn is_decimal(digits: Seq<u8>) -> bool {
    forall|i: int| 0 <= i < digits.len() ==> 0x30 <= #[trigger] digits[i] <= 0x39
}

/// The number that decimal digits write: the sum of the digits, each with the power of ten of its
/// place.
pub open spec fn decimal(digits: Seq<u8>) -> int
    decreases digits.len(),
{
    if digits.len() == 0 {
        0
    } else {
        (digits[0] - 0x30) * pow(10, (digits.len() - 1) as nat) + decimal(digits.skip(1))
    }
}

/// A digit behind others makes them count ten times as much.
pub proof fn lemma_decimal_push(digits: Seq<u8>, digit: u8)
    ensures
        decimal(digits.push(digit)) == decimal(digits) * 10 + (digit - 0x30),
    decreases digits.len(),
{
    let all = digits.push(digit);
    let place = pow(10, (digits.len() - 1) as nat);
    reveal(pow);
    if digits.len() == 0 {
        let last = digit - 0x30;
        let one = pow(10, 0);
        assert(all.skip(1) =~= seq![]);
        assert(decimal(all) == last * one + decimal(seq![]));
        assert(last * one == last) by (nonlinear_arith)
            requires
                one == 1,
        ;
    } else {
        let high = digits[0] - 0x30;
        assert(all.skip(1) =~= digits.skip(1).push(digit));
        lemma_decimal_push(digits.skip(1), digit);
        assert(pow(10, digits.len()) == 10 * place);
        assert(high * (10 * place) == (high * place) * 10) by (nonlinear_arith);
    }
}

/// Digits write no negative number.
pub proof fn lemma_decimal_is_natural(digits: Seq<u8>)
    requires
        is_decimal(digits),
    ensures
        decimal(digits) >= 0,
    decreases digits.len(),
{
    if digits.len() > 0 {
        let last = digits.last();
        let others = digits.drop_last();
        assert(others.push(last) =~= digits);
        lemma_decimal_is_natural(others);
        lemma_decimal_push(others, last);
    }
}

/// The bytes without their carriage returns.
pub open spec fn without_returns(bytes: Seq<u8>) -> Seq<u8>
    decreases bytes.len(),
{
    if bytes.len() == 0 {
        seq![]
    } else if bytes[0] == 0x0d {
        without_returns(bytes.skip(1))
    } else {
        seq![bytes[0]] + without_returns(bytes.skip(1))
    }
}

/// Bytes without carriage returns stay as they are.
pub proof fn lemma_without_returns_keeps(bytes: Seq<u8>)
    requires
        forall|i: int| 0 <= i < bytes.len() ==> #[trigger] bytes[i] != 0x0d,
    ensures
        without_returns(bytes) == bytes,
    decreases bytes.len(),
{
    if bytes.len() > 0 {
        let others = bytes.skip(1);
        assert forall|i: int| 0 <= i < others.len() implies #[trigger] others[i] != 0x0d by {
            assert(others[i] == bytes[i + 1]);
        }
        lemma_without_returns_keeps(others);
        assert(seq![bytes[0]] + others =~= bytes);
    }
}

/// A letter, a digit or a hyphen.
pub open spec fn is_word_byte(byte: u8) -> bool {
    0x41 <= byte <= 0x5a || 0x61 <= byte <= 0x7a || 0x30 <= byte <= 0x39 || byte == 0x2d
}

/// The byte is that of a character, or of the same letter in lower case.
pub open spec fn is_letter(byte: u8, letter: char) -> bool {
    byte as int == letter as int || 0x61 <= byte <= 0x7a && byte - 0x20 == letter as int
}

/// The bytes spell `name`, which is in upper case, in letters of any case.
pub open spec fn spells(word: Seq<u8>, name: &str) -> bool {
    &&& word.len() == name@.len()
    &&& forall|i: int| 0 <= i < word.len() ==> is_letter(#[trigger] word[i], name@[i])
}

/// ASCII without lower-case letters.
pub open spec fn is_upper_case(name: &str) -> bool {
    &&& is_ascii_chars(name@)
    &&& forall|i: int| 0 <= i < name@.len() ==> !(0x61 <= (#[trigger] name@[i]) as int <= 0x7a)
}

/// Bytes spell a name exactly where they are the bytes of that name once raised to upper case.
pub proof fn lemma_spells(word: Seq<u8>, name: &str)
    requires
        is_upper_case(name),
    ensures
        spells(word, name) == (uppercase(word) == bytes_of(name)),
{
    lemma_bytes_of_ascii(name);
    let upper = uppercase(word);
    if spells(word, name) {
        assert forall|i: int| 0 <= i < upper.len() implies upper[i] == bytes_of(name)[i] by {
            assert(is_letter(word[i], name@[i]));
        }
        assert(upper =~= bytes_of(name));
    }
    if upper == bytes_of(name) {
        assert forall|i: int| 0 <= i < word.len() implies is_letter(
            #[trigger] word[i],
            name@[i],
        ) by {
            assert(upper[i] == to_upper(word[i]));
            assert(bytes_of(name)[i] == name@[i] as u8);
        }
    }
}

} // verus!
