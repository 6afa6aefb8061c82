//! What the readings of words, numbers and texts give, told from the bytes that were read.

use crate::ascii::{digit_value, to_upper, CR, LF, SP};
use crate::notation::{
    decimal, is_decimal, is_word_byte, lemma_decimal_is_natural, lemma_decimal_push,
    without_returns,
};
use crate::offers::uppercase;
use crate::reader::{scan_keyword, scan_number, scan_text, size_of_number, Scanned};
use vstd::prelude::*;

verus! {

/// Spaces only.
pub open spec fn are_spaces(bytes: Seq<u8>) -> bool {
    forall|i: int| 0 <= i < bytes.len() ==> #[trigger] bytes[i] == SP
}

/// Letters, digits and hyphens only, and no more of them than a keyword may have.
pub open spec fn is_plain_word(word: Seq<u8>) -> bool {
    &&& word.len() <= 16
    &&& forall|i: int| 0 <= i < word.len() ==> is_word_byte(#[trigger] word[i])
}

/// A text that no byte of its own ends.
pub open spec fn is_plain_text(text: Seq<u8>) -> bool {
    forall|i: int|
        0 <= i < text.len() ==> #[trigger] text[i] != SP && text[i] != CR && text[i] != LF
}

proof fn lemma_step(first: Seq<u8>, stop: u8, rest: Seq<u8>)
    ensures
        first.len() == 0 ==> {
            &&& (first + seq![stop] + rest)[0] == stop
            &&& (first + seq![stop] + rest).skip(1) == rest
        },
        first.len() > 0 ==> {
            &&& (first + seq![stop] + rest)[0] == first[0]
            &&& (first + seq![stop] + rest).skip(1) == first.skip(1) + seq![stop] + rest
            &&& first == seq![first[0]] + first.skip(1)
            &&& forall|i: int| 0 <= i < first.skip(1).len() ==> #[trigger] first.skip(1)[i]
                == first[i + 1]
        },
{
    let input = first + seq![stop] + rest;
    if first.len() == 0 {
        assert(input.skip(1) =~= rest);
    } else {
        assert(input.skip(1) =~= first.skip(1) + seq![stop] + rest);
        assert(first =~= seq![first[0]] + first.skip(1));
    }
}

proof fn lemma_word_goes_on(word: Seq<u8>, so_far: Seq<u8>, stop: u8, rest: Seq<u8>)
    requires
        is_plain_word(word),
        so_far.len() + word.len() <= 16,
        stop != CR,
        so_far.len() + word.len() < 16 ==> !is_word_byte(stop),
        so_far.len() + word.len() == 0 ==> stop != SP,
    ensures
        scan_keyword(word + seq![stop] + rest, so_far) == Some(
            Scanned { value: so_far + uppercase(word), stop, rest },
        ),
    decreases word.len(),
{
    lemma_step(word, stop, rest);
    if word.len() == 0 {
        assert(so_far + uppercase(word) =~= so_far);
    } else {
        let next = so_far.push(uppercase(word)[0]);
        assert(is_word_byte(word[0]));
        assert forall|i: int| 0 <= i < word.skip(1).len() implies is_word_byte(
            #[trigger] word.skip(1)[i],
        ) by {
            assert(is_word_byte(word[i + 1]));
        }
        lemma_word_goes_on(word.skip(1), next, stop, rest);
        assert(next + uppercase(word.skip(1)) =~= so_far + uppercase(word));
    }
}

/// A word of letters, digits and hyphens is read whole, in upper case, behind any spaces, up to the
/// first other byte or to the longest length of a keyword.
pub proof fn law_scans_word(spaces: Seq<u8>, word: Seq<u8>, stop: u8, rest: Seq<u8>)
    requires
        are_spaces(spaces),
        is_plain_word(word),
        stop != CR,
        word.len() < 16 ==> !is_word_byte(stop),
        word.len() == 0 ==> stop != SP,
    ensures
        scan_keyword(spaces + word + seq![stop] + rest, seq![]) == Some(
            Scanned { value: uppercase(word), stop, rest },
        ),
    decreases spaces.len(),
{
    let input = spaces + word + seq![stop] + rest;
    if spaces.len() == 0 {
        assert(input =~= word + seq![stop] + rest);
        lemma_word_goes_on(word, seq![], stop, rest);
        assert(Seq::<u8>::empty() + uppercase(word) =~= uppercase(word));
    } else {
        let fewer = spaces.skip(1);
        assert forall|i: int| 0 <= i < fewer.len() implies #[trigger] fewer[i] == SP by {
            assert(fewer[i] == spaces[i + 1]);
        }
        assert(input[0] == spaces[0]);
        assert(input.skip(1) =~= fewer + word + seq![stop] + rest);
        law_scans_word(fewer, word, stop, rest);
    }
}

/// The number that digits write; none where there are no digits.
pub open spec fn written(digits: Seq<u8>) -> Option<nat> {
    if digits.len() == 0 {
        None
    } else {
        Some(decimal(digits) as nat)
    }
}

proof fn lemma_number_goes_on(digits: Seq<u8>, so_far: Seq<u8>, stop: u8, rest: Seq<u8>)
    requires
        is_decimal(so_far),
        is_decimal(digits),
        stop != CR,
        !(0x30 <= stop <= 0x39),
        so_far.len() + digits.len() == 0 ==> stop != SP,
    ensures
        scan_number(digits + seq![stop] + rest, written(so_far)) == Some(
            Scanned { value: written(so_far + digits), stop, rest },
        ),
    decreases digits.len(),
{
    lemma_step(digits, stop, rest);
    if digits.len() == 0 {
        assert(so_far + digits =~= so_far);
    } else {
        let next = so_far.push(digits[0]);
        assert(is_decimal(digits.skip(1)));
        assert(is_decimal(next));
        lemma_decimal_is_natural(so_far);
        lemma_decimal_push(so_far, digits[0]);
        lemma_number_goes_on(digits.skip(1), next, stop, rest);
        assert(next + digits.skip(1) =~= so_far + digits);
    }
}

/// Digits are read as the number that they write in decimal, behind any spaces, up to the first
/// other byte. Where there are none, no number is read.
pub proof fn law_scans_number(spaces: Seq<u8>, digits: Seq<u8>, stop: u8, rest: Seq<u8>)
    requires
        are_spaces(spaces),
        is_decimal(digits),
        stop != CR,
        !(0x30 <= stop <= 0x39),
        digits.len() == 0 ==> stop != SP,
    ensures
        scan_number(spaces + digits + seq![stop] + rest, None) == Some(
            Scanned { value: written(digits), stop, rest },
        ),
        decimal(digits) >= 0,
    decreases spaces.len(),
{
    let input = spaces + digits + seq![stop] + rest;
    lemma_decimal_is_natural(digits);
    if spaces.len() == 0 {
        assert(input =~= digits + seq![stop] + rest);
        lemma_number_goes_on(digits, seq![], stop, rest);
        assert(Seq::<u8>::empty() + digits =~= digits);
    } else {
        let fewer = spaces.skip(1);
        assert forall|i: int| 0 <= i < fewer.len() implies #[trigger] fewer[i] == SP by {
            assert(fewer[i] == spaces[i + 1]);
        }
        assert(input[0] == spaces[0]);
        assert(input.skip(1) =~= fewer + digits + seq![stop] + rest);
        law_scans_number(fewer, digits, stop, rest);
    }
}

/// A number that was read is kept as it is where it is less than the largest `usize`, which stands
/// for every other one, and for none.
pub proof fn law_size_of_number(digits: Seq<u8>)
    requires
        is_decimal(digits),
    ensures
        digits.len() > 0 && decimal(digits) < usize::MAX ==> size_of_number(written(digits))
            == decimal(digits),
        digits.len() == 0 || decimal(digits) >= usize::MAX ==> size_of_number(written(digits))
            == usize::MAX,
{
    lemma_decimal_is_natural(digits);
}

proof fn lemma_text_goes_on(text: Seq<u8>, so_far: Seq<u8>, stop: u8, rest: Seq<u8>)
    requires
        is_plain_text(text),
        stop == LF || stop == SP && so_far.len() + text.len() > 0,
    ensures
        scan_text(text + seq![stop] + rest, so_far) == Some(
            Scanned { value: so_far + text, stop, rest },
        ),
    decreases text.len(),
{
    lemma_step(text, stop, rest);
    if text.len() == 0 {
        assert(so_far + text =~= so_far);
    } else {
        let next = so_far.push(text[0]);
        lemma_text_goes_on(text.skip(1), next, stop, rest);
        assert(next + text.skip(1) =~= so_far + text);
    }
}

/// A text is read whole, behind any spaces, up to a space or the end of the line.
pub proof fn law_scans_text(spaces: Seq<u8>, text: Seq<u8>, stop: u8, rest: Seq<u8>)
    requires
        are_spaces(spaces),
        is_plain_text(text),
        stop == LF || stop == SP && text.len() > 0,
    ensures
        scan_text(spaces + text + seq![stop] + rest, seq![]) == Some(
            Scanned { value: text, stop, rest },
        ),
    decreases spaces.len(),
{
    let input = spaces + text + seq![stop] + rest;
    if spaces.len() == 0 {
        assert(input =~= text + seq![stop] + rest);
        lemma_text_goes_on(text, seq![], stop, rest);
        assert(Seq::<u8>::empty() + text =~= text);
    } else {
        let fewer = spaces.skip(1);
        assert forall|i: int| 0 <= i < fewer.len() implies #[trigger] fewer[i] == SP by {
            assert(fewer[i] == spaces[i + 1]);
        }
        assert(input[0] == spaces[0]);
        assert(input.skip(1) =~= fewer + text + seq![stop] + rest);
        law_scans_text(fewer, text, stop, rest);
    }
}

/// Two readings agree, but for the carriage returns in what is left, and did not stop at one.
pub open spec fn agree_but_returns<T>(
    first: Option<Scanned<T>>,
    second: Option<Scanned<T>>,
) -> bool {
    match (first, second) {
        (Some(a), Some(b)) => {
            &&& b == (Scanned { rest: without_returns(a.rest), ..a })
            &&& a.stop != CR
        },
        (None, None) => true,
        _ => false,
    }
}

proof fn lemma_returns_step(input: Seq<u8>)
    ensures
        input.len() > 0 && input[0] != CR ==> {
            &&& without_returns(input).len() > 0
            &&& without_returns(input)[0] == input[0]
            &&& without_returns(input).skip(1) == without_returns(input.skip(1))
        },
{
    if input.len() > 0 && input[0] != CR {
        assert(without_returns(input).skip(1) =~= without_returns(input.skip(1)));
    }
}

/// Carriage returns in and before a keyword do not count.
pub proof fn law_keyword_passes_over_returns(input: Seq<u8>, word: Seq<u8>)
    ensures
        agree_but_returns(scan_keyword(input, word), scan_keyword(without_returns(input), word)),
    decreases input.len(),
{
    lemma_returns_step(input);
    if input.len() > 0 {
        law_keyword_passes_over_returns(input.skip(1), word);
        law_keyword_passes_over_returns(
            input.skip(1),
            word.push(to_upper(input[0])),
        );
    }
}

/// Carriage returns in and before a number do not count.
pub proof fn law_number_passes_over_returns(input: Seq<u8>, number: Option<nat>)
    ensures
        agree_but_returns(scan_number(input, number), scan_number(without_returns(input), number)),
    decreases input.len(),
{
    lemma_returns_step(input);
    if input.len() > 0 {
        law_number_passes_over_returns(input.skip(1), number);
        law_number_passes_over_returns(
            input.skip(1),
            Some(
                match number {
                    Some(number) => number * 10,
                    None => 0,
                } + digit_value(input[0]) as nat,
            ),
        );
    }
}

/// Carriage returns in and before a text do not count.
pub proof fn law_text_passes_over_returns(input: Seq<u8>, text: Seq<u8>)
    ensures
        agree_but_returns(scan_text(input, text), scan_text(without_returns(input), text)),
    decreases input.len(),
{
    lemma_returns_step(input);
    if input.len() > 0 {
        law_text_passes_over_returns(input.skip(1), text);
        law_text_passes_over_returns(input.skip(1), text.push(input[0]));
    }
}

} // verus!
