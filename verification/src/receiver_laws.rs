//! What holds of a receiver over all replies and all ways to cut them.

use crate::ascii::{CR, DOT, FF, HYPHEN, LF, SP, TAB};
use crate::notation::{
    decimal, is_decimal, lemma_decimal_is_natural, lemma_decimal_push, lemma_without_returns_keeps,
    without_returns,
};
use crate::receiver::{
    feed, is_outcome, receive, with_digit, Received, ReceiverView, Step, MAX_REPONSE_LENGTH,
};
use crate::text::{law_text_of_bytes, lossy_text};
use crate::types::{Error, ErrorView, Reply, Response};
use vstd::prelude::*;
use vstd::utf8::{encode_utf8, valid_utf8};

verus! {

/// The outcome tells that all bytes were taken and the reply goes on.
pub open spec fn needs_more(received: Received) -> bool {
    received.outcome == Err::<Reply, ErrorView>(ErrorView::NeedsMoreData { bytes_left: 0 })
}

/// A receiver never takes more than it is given, and stays well formed whatever it takes.
pub proof fn law_receiver_stays_well_formed(state: ReceiverView, bytes: Seq<u8>)
    requires
        state.well_formed(),
    ensures
        receive(state, bytes).state.well_formed(),
        receive(state, bytes).taken <= bytes.len(),
    decreases bytes.len(),
{
    if bytes.len() > 0 {
        if let Step::More(next) = feed(state, bytes[0]) {
            law_receiver_stays_well_formed(next, bytes.skip(1));
        }
    }
}

/// It does not matter how the bytes are cut into pieces. Where the first piece ends inside a
/// reply, all of it is taken, and the receiver goes on with the second piece as it would have with
/// both at once. Where a reply, or a byte that is refused, stands in the first piece, what follows
/// changes nothing.
pub proof fn law_pieces(state: ReceiverView, first: Seq<u8>, second: Seq<u8>)
    ensures
        ({
            let received = receive(state, first);
            let whole = receive(state, first + second);
            if needs_more(received) {
                let then = receive(received.state, second);
                &&& received.taken == first.len()
                &&& whole == (Received { taken: first.len() + then.taken, ..then })
            } else {
                whole == received
            }
        }),
    decreases first.len(),
{
    if first.len() == 0 {
        assert(first + second =~= second);
    } else {
        assert((first + second)[0] == first[0]);
        assert((first + second).skip(1) =~= first.skip(1) + second);
        if let Step::More(next) = feed(state, first[0]) {
            law_pieces(next, first.skip(1), second);
        }
    }
}

/// A byte that is refused leaves the receiver as the bytes before it have left it.
pub proof fn law_refused_byte_changes_nothing(state: ReceiverView, bytes: Seq<u8>)
    requires
        receive(state, bytes).outcome is Err,
        !needs_more(receive(state, bytes)),
    ensures
        ({
            let received = receive(state, bytes);
            let before = receive(state, bytes.take(received.taken - 1));
            &&& 0 < received.taken <= bytes.len()
            &&& needs_more(before)
            &&& before.state == received.state
        }),
    decreases bytes.len(),
{
    let received = receive(state, bytes);
    if let Step::More(next) = feed(state, bytes[0]) {
        law_refused_byte_changes_nothing(next, bytes.skip(1));
        let before = bytes.take(received.taken - 1);
        assert(before[0] == bytes[0]);
        assert(before.skip(1) =~= bytes.skip(1).take(received.taken - 2));
    }
}

/// Once a reply is complete, none of its text is left, and resetting the receiver makes it as
/// good as new.
pub proof fn law_reset_after_reply(state: ReceiverView, bytes: Seq<u8>)
    requires
        receive(state, bytes).outcome is Ok,
    ensures
        (ReceiverView { buf: receive(state, bytes).state.buf, ..ReceiverView::fresh() })
            == ReceiverView::fresh(),
    decreases bytes.len(),
{
    if let Step::More(next) = feed(state, bytes[0]) {
        law_reset_after_reply(next, bytes.skip(1));
    }
}

/// A reply is refused as too long only once its text has reached its longest length.
pub proof fn law_too_long(state: ReceiverView, bytes: Seq<u8>)
    requires
        receive(state, bytes).outcome == Err::<Reply, ErrorView>(ErrorView::ResponseTooLong),
    ensures
        receive(state, bytes).state.buf.len() >= MAX_REPONSE_LENGTH,
    decreases bytes.len(),
{
    if let Step::More(next) = feed(state, bytes[0]) {
        law_too_long(next, bytes.skip(1));
    }
}

/// The bytes `bytes` take a receiver from one state to another within a reply.
pub open spec fn leads(from: ReceiverView, bytes: Seq<u8>, to: ReceiverView) -> bool {
    let received = receive(from, bytes);
    needs_more(received) && received.state == to && received.taken == bytes.len()
}

proof fn lemma_leads_on(
    from: ReceiverView,
    first: Seq<u8>,
    mid: ReceiverView,
    second: Seq<u8>,
    to: ReceiverView,
)
    requires
        leads(from, first, mid),
        leads(mid, second, to),
    ensures
        leads(from, first + second, to),
{
    law_pieces(from, first, second);
}

proof fn lemma_one_byte(from: ReceiverView, byte: u8)
    ensures
        feed(from, byte) matches Step::More(to) ==> leads(from, seq![byte], to),
{
    let bytes = seq![byte];
    assert(bytes.skip(1) =~= seq![]);
    reveal_with_fuel(receive, 2);
}

/// Three digits, as bytes.
pub open spec fn is_code(code: Seq<u8>) -> bool {
    code.len() == 3 && is_number(code)
}

/// Digits only, as bytes.
pub open spec fn is_number(digits: Seq<u8>) -> bool {
    is_decimal(digits)
}

/// The number that some digits write, at most 255.
pub open spec fn number(digits: Seq<u8>) -> u8 {
    if decimal(digits) < 255 {
        decimal(digits) as u8
    } else {
        255
    }
}

/// The digits of a code as numbers.
pub open spec fn code_values(code: Seq<u8>) -> Seq<u8> {
    code.map_values(|digit: u8| (digit - 0x30) as u8)
}

/// Digits that arrive one after the other make up the number that they write in decimal, at most
/// 255.
pub proof fn law_digits_write_decimal(digits: Seq<u8>, digit: u8)
    requires
        is_decimal(digits.push(digit)),
    ensures
        with_digit(number(digits), digit) == number(digits.push(digit)),
{
    let all = digits.push(digit);
    assert forall|i: int| 0 <= i < digits.len() implies 0x30 <= #[trigger] digits[i] <= 0x39 by {
        assert(all[i] == digits[i]);
    }
    assert(all[digits.len() as int] == digit);
    lemma_decimal_is_natural(digits);
    lemma_decimal_push(digits, digit);
}

/// A code that a receiver is made with stands for the digits of that code, received.
pub proof fn law_from_code(code: Seq<u8>)
    requires
        is_code(code),
    ensures
        leads(
            ReceiverView::fresh(),
            code,
            ReceiverView {
                code: code_values(code) + seq![0, 0, 0],
                pos: 3,
                ..ReceiverView::fresh()
            },
        ),
{
    lemma_code(ReceiverView::fresh(), code);
    assert(seq![0u8, 0, 0] =~= ReceiverView::fresh().code.skip(3));
}

/// Reading the code at the start of a line.
proof fn lemma_code(state: ReceiverView, code: Seq<u8>)
    requires
        state.well_formed(),
        state.pos == 0,
        is_code(code),
    ensures
        leads(
            state,
            code,
            ReceiverView {
                code: if state.buf.len() == 0 {
                    code_values(code) + state.code.skip(3)
                } else {
                    state.code
                },
                pos: 3,
                ..state
            },
        ),
{
    reveal_with_fuel(receive, 4);
    assert(code.skip(1).skip(1).skip(1) =~= seq![]);
    let received = receive(state, code);
    if state.buf.len() == 0 {
        assert(received.state.code =~= code_values(code) + state.code.skip(3));
    }
}

/// A line with a code and nothing behind it but carriage returns ends the reply, and adds nothing
/// to its text.
pub proof fn law_bare_code_ends_reply(state: ReceiverView, carriage_returns: Seq<u8>)
    requires
        state.pos == 3,
        forall|i: int| 0 <= i < carriage_returns.len() ==> #[trigger] carriage_returns[i] == CR,
    ensures
        ({
            let received = receive(state, carriage_returns + seq![LF]);
            &&& received.outcome == Ok::<Reply, ErrorView>(state.reply())
            &&& received.taken == carriage_returns.len() + 1
        }),
    decreases carriage_returns.len(),
{
    let input = carriage_returns + seq![LF];
    if carriage_returns.len() > 0 {
        let others = carriage_returns.skip(1);
        assert forall|i: int| 0 <= i < others.len() implies #[trigger] others[i] == CR by {
            assert(others[i] == carriage_returns[i + 1]);
        }
        assert(input[0] == carriage_returns[0]);
        assert(input.skip(1) =~= others + seq![LF]);
        law_bare_code_ends_reply(state, others);
    } else {
        assert(input[0] == LF);
    }
}

/// A line of a reply.
pub struct Line {
    /// The three digits of the code.
    pub code: Seq<u8>,
    /// Carriage returns behind the code.
    pub returns_behind_code: Seq<u8>,
    /// The digits of the numbers that stand in front of the text, one to three of them. A line
    /// without an enhanced status code has one number without digits. A line with a code and
    /// nothing behind it has no numbers.
    pub numbers: Seq<Seq<u8>>,
    /// What parts the numbers from the text: nothing, or white space.
    pub gap: Seq<u8>,
    /// The text, with any carriage returns in it.
    pub text: Seq<u8>,
    /// A line feed, with or without a carriage return before it.
    pub eol: Seq<u8>,
}

/// No line ends in `bytes`.
pub open spec fn is_line_text(bytes: Seq<u8>) -> bool {
    forall|i: int| 0 <= i < bytes.len() ==> #[trigger] bytes[i] != CR && bytes[i] != LF
}

/// The end of a line: a line feed, with or without a carriage return before it.
pub open spec fn is_line_end(eol: Seq<u8>) -> bool {
    eol == seq![LF] || eol == seq![CR, LF]
}

/// Carriage returns only.
pub open spec fn are_returns(bytes: Seq<u8>) -> bool {
    forall|i: int| 0 <= i < bytes.len() ==> #[trigger] bytes[i] == CR
}

/// A space, a tab, a form feed or a carriage return.
pub open spec fn is_gap(byte: u8) -> bool {
    byte == SP || byte == TAB || byte == FF || byte == CR
}

impl Line {
    /// The numbers in front of the text as they are kept; zero where there is none.
    pub open spec fn status(self) -> Seq<u8> {
        Seq::new(
            3,
            |i: int|
                if i < self.numbers.len() {
                    number(self.numbers[i])
                } else {
                    0
                },
        )
    }

    /// A line of a reply whose enhanced status code, taken from its first line, is `esc`. A number
    /// of that code has to be there for a dot behind a number to count. Where nothing parts the
    /// numbers from the text, the text does not go on with them.
    pub open spec fn well_formed(self, esc: Seq<u8>) -> bool {
        let n = self.numbers.len();
        &&& is_code(self.code)
        &&& are_returns(self.returns_behind_code)
        &&& n <= 3
        &&& n == 0 ==> self.gap.len() == 0 && self.text.len() == 0
        &&& forall|i: int| 0 <= i < n ==> is_number(#[trigger] self.numbers[i])
        &&& forall|i: int| 0 <= i < n - 1 ==> #[trigger] esc[i] > 0
        &&& self.gap.len() <= 1
        &&& self.gap.len() == 1 ==> is_gap(self.gap[0])
        &&& forall|i: int| 0 <= i < self.text.len() ==> #[trigger] self.text[i] != LF
        &&& self.gap.len() == 0 && self.text.len() > 0 ==> {
            &&& !(0x30 <= self.text[0] <= 0x39)
            &&& !is_gap(self.text[0])
            &&& self.text[0] == DOT && n < 3 ==> esc[n - 1] == 0
        }
        &&& is_line_end(self.eol)
    }

    /// The text that is kept: that of the line without its carriage returns.
    pub open spec fn kept(self) -> Seq<u8> {
        without_returns(self.text)
    }

    /// The text fits behind `used` bytes of text. Where nothing parts it from the numbers, its
    /// first byte is not counted against the longest length.
    pub open spec fn fits(self, used: nat) -> bool {
        self.kept().len() > (1 - self.gap.len()) ==> used + self.kept().len() <= MAX_REPONSE_LENGTH
    }

    /// The line up to its end, with `separator` behind the code where anything follows.
    pub open spec fn content(self, separator: u8) -> Seq<u8> {
        if self.numbers.len() == 0 {
            self.code + self.returns_behind_code
        } else {
            self.code + self.returns_behind_code + seq![separator] + numbers_bytes(self.numbers)
                + self.gap + self.text
        }
    }
}

/// Numbers with a dot between any two.
pub open spec fn numbers_bytes(numbers: Seq<Seq<u8>>) -> Seq<u8>
    decreases numbers.len(),
{
    if numbers.len() == 0 {
        seq![]
    } else if numbers.len() == 1 {
        numbers[0]
    } else {
        numbers[0] + seq![DOT] + numbers_bytes(numbers.skip(1))
    }
}

/// The lines of a reply whose enhanced status code is `esc`. Only on the last may nothing stand
/// behind the code.
pub open spec fn are_lines(lines: Seq<Line>, esc: Seq<u8>) -> bool {
    &&& lines.len() > 0
    &&& forall|i: int| 0 <= i < lines.len() ==> (#[trigger] lines[i]).well_formed(esc)
    &&& forall|i: int| 0 <= i < lines.len() - 1 ==> (#[trigger] lines[i]).numbers.len() > 0
}

/// The bytes of a reply: a hyphen stands behind the code on all lines but the last.
pub open spec fn reply_bytes(lines: Seq<Line>) -> Seq<u8>
    decreases lines.len(),
{
    if lines.len() == 0 {
        seq![]
    } else if lines.len() == 1 {
        lines[0].content(SP) + lines[0].eol
    } else {
        lines[0].content(HYPHEN) + lines[0].eol + reply_bytes(lines.skip(1))
    }
}

/// The texts of the lines, with a line feed between any two.
pub open spec fn joined(lines: Seq<Line>) -> Seq<u8>
    decreases lines.len(),
{
    if lines.len() == 0 {
        seq![]
    } else if lines.len() == 1 {
        lines[0].kept()
    } else {
        lines[0].kept() + seq![LF] + joined(lines.skip(1))
    }
}

/// The texts of the lines fit behind `used` bytes of text. Line feeds are not counted against the
/// longest length.
pub open spec fn fit(used: nat, lines: Seq<Line>) -> bool
    decreases lines.len(),
{
    lines.len() > 0 ==> lines[0].fits(used) && fit(used + lines[0].kept().len() + 1, lines.skip(1))
}

/// Reading the digits of one number, behind `before`.
proof fn lemma_digits(state: ReceiverView, before: Seq<u8>, digits: Seq<u8>)
    requires
        state.well_formed(),
        4 <= state.pos <= 6,
        is_decimal(before),
        is_decimal(digits),
        state.buf.len() == 0 ==> state.code[state.pos - 1] == number(before),
    ensures
        leads(
            state,
            digits,
            ReceiverView {
                code: if state.buf.len() == 0 {
                    state.code.update(state.pos - 1, number(before + digits))
                } else {
                    state.code
                },
                ..state
            },
        ),
    decreases digits.len(),
{
    if digits.len() == 0 {
        assert(before + digits =~= before);
        assert(state.code.update(state.pos - 1, number(before)) =~= state.code || state.buf.len()
            > 0);
    } else {
        let digit = digits[0];
        let so_far = before.push(digit);
        assert(so_far + digits.skip(1) =~= before + digits);
        assert(is_decimal(so_far)) by {
            assert(digits[0] == digit);
        }
        law_digits_write_decimal(before, digit);
        assert(is_decimal(digits.skip(1))) by {
            assert(forall|i: int| 0 <= i < digits.skip(1).len() ==> #[trigger] digits.skip(1)[i]
                == digits[i + 1]);
        }
        assert(digits =~= seq![digit] + digits.skip(1));
        let next = ReceiverView {
            code: if state.buf.len() == 0 {
                state.code.update(state.pos - 1, number(so_far))
            } else {
                state.code
            },
            ..state
        };
        lemma_one_byte(state, digit);
        lemma_digits(next, so_far, digits.skip(1));
        let last = receive(next, digits.skip(1)).state;
        lemma_leads_on(state, seq![digit], next, digits.skip(1), last);
        if state.buf.len() == 0 {
            assert(last.code =~= state.code.update(state.pos - 1, number(before + digits)));
        }
    }
}

/// Reading the numbers in front of the text. On the first line, where they count, they make the
/// codes what `codes` is; on every other line the codes are that already.
proof fn lemma_numbers(state: ReceiverView, numbers: Seq<Seq<u8>>, codes: Seq<u8>)
    requires
        state.well_formed(),
        4 <= state.pos,
        1 <= numbers.len() <= 7 - state.pos,
        codes.len() == 6,
        forall|i: int| 0 <= i < numbers.len() ==> is_number(#[trigger] numbers[i]),
        state.buf.len() > 0 ==> state.code == codes,
        state.buf.len() == 0 ==> {
            &&& forall|j: int| 0 <= j < state.pos - 1 ==> #[trigger] state.code[j] == codes[j]
            &&& forall|j: int| state.pos - 1 <= j < 6 ==> #[trigger] state.code[j] == 0
            &&& forall|j: int|
                state.pos - 1 <= j < 6 ==> #[trigger] codes[j] == if j - (state.pos - 1)
                    < numbers.len() {
                    number(numbers[j - (state.pos - 1)])
                } else {
                    0
                }
        },
        forall|j: int|
            state.pos - 1 <= j < state.pos - 2 + numbers.len() ==> #[trigger] codes[j] > 0,
    ensures
        leads(
            state,
            numbers_bytes(numbers),
            ReceiverView {
                code: codes,
                pos: (state.pos + numbers.len() - 1) as nat,
                ..state
            },
        ),
    decreases numbers.len(),
{
    let field = state.pos - 1;
    let empty = Seq::<u8>::empty();
    assert(empty + numbers[0] =~= numbers[0]);
    lemma_digits(state, empty, numbers[0]);
    let s1 = ReceiverView {
        code: if state.buf.len() == 0 {
            state.code.update(field, number(numbers[0]))
        } else {
            state.code
        },
        ..state
    };
    assert(s1.code[field] == codes[field]);
    if numbers.len() == 1 {
        assert(s1.code =~= codes);
    } else {
        let s2 = ReceiverView { pos: state.pos + 1, ..s1 };
        let others = numbers.skip(1);
        lemma_one_byte(s1, DOT);
        assert forall|i: int| 0 <= i < others.len() implies is_number(#[trigger] others[i]) by {
            assert(others[i] == numbers[i + 1]);
        }
        lemma_numbers(s2, others, codes);
        let s3 = ReceiverView {
            code: codes,
            pos: (state.pos + numbers.len() - 1) as nat,
            ..state
        };
        lemma_leads_on(state, numbers[0], s1, seq![DOT], s2);
        lemma_leads_on(state, numbers[0] + seq![DOT], s2, numbers_bytes(others), s3);
    }
}

/// Bytes of text are kept as they are, but for carriage returns.
pub proof fn lemma_text(state: ReceiverView, text: Seq<u8>)
    requires
        state.well_formed(),
        state.pos == 7,
        forall|i: int| 0 <= i < text.len() ==> #[trigger] text[i] != LF,
        without_returns(text).len() > 0 ==> state.buf.len() + without_returns(text).len()
            <= MAX_REPONSE_LENGTH,
    ensures
        leads(state, text, ReceiverView { buf: state.buf + without_returns(text), ..state }),
    decreases text.len(),
{
    let kept = without_returns(text);
    if text.len() == 0 {
        assert(state.buf + kept =~= state.buf);
    } else {
        let others = text.skip(1);
        let next = ReceiverView {
            buf: if text[0] == CR {
                state.buf
            } else {
                state.buf.push(text[0])
            },
            ..state
        };
        assert forall|i: int| 0 <= i < others.len() implies #[trigger] others[i] != LF by {
            assert(others[i] == text[i + 1]);
        }
        lemma_one_byte(state, text[0]);
        lemma_text(next, others);
        assert(text =~= seq![text[0]] + others);
        assert(next.buf + without_returns(others) =~= state.buf + kept);
        lemma_leads_on(
            state,
            seq![text[0]],
            next,
            others,
            ReceiverView { buf: state.buf + kept, ..state },
        );
    }
}

/// Reading carriage returns behind a code.
proof fn lemma_returns(state: ReceiverView, returns_behind_code: Seq<u8>)
    requires
        state.pos == 3,
        are_returns(returns_behind_code),
    ensures
        leads(state, returns_behind_code, state),
    decreases returns_behind_code.len(),
{
    if returns_behind_code.len() > 0 {
        let others = returns_behind_code.skip(1);
        assert forall|i: int| 0 <= i < others.len() implies #[trigger] others[i] == CR by {
            assert(others[i] == returns_behind_code[i + 1]);
        }
        lemma_one_byte(state, CR);
        lemma_returns(state, others);
        assert(returns_behind_code =~= seq![CR] + others);
        lemma_leads_on(state, seq![CR], state, others, state);
    }
}

/// The state behind the text of a line whose numbers end in `state`.
spec fn behind_text(state: ReceiverView, line: Line) -> ReceiverView {
    ReceiverView {
        buf: state.buf + line.kept(),
        pos: if line.gap.len() == 0 && line.text.len() == 0 {
            state.pos
        } else {
            7
        },
        ..state
    }
}

/// Reading what stands behind the numbers of a line.
proof fn lemma_gap_and_text(state: ReceiverView, line: Line)
    requires
        state.well_formed(),
        line.well_formed(state.code.skip(3)),
        line.numbers.len() > 0,
        state.pos == 3 + line.numbers.len(),
        line.fits(state.buf.len()),
    ensures
        leads(state, line.gap + line.text, behind_text(state, line)),
{
    let text = line.text;
    if line.gap.len() == 1 {
        let next = ReceiverView { pos: 7, ..state };
        let byte = line.gap[0];
        assert(byte != DOT);
        lemma_one_byte(state, byte);
        assert(line.gap =~= seq![byte]);
        lemma_text(next, text);
        lemma_leads_on(state, line.gap, next, text, behind_text(state, line));
    } else {
        assert(line.gap + text =~= text);
        if text.len() == 0 {
            assert(state.buf + line.kept() =~= state.buf);
        } else {
            let next = ReceiverView { buf: state.buf.push(text[0]), pos: 7, ..state };
            let others = text.skip(1);
            assert(state.code[state.pos - 1] == state.code.skip(3)[state.pos - 4]);
            lemma_one_byte(state, text[0]);
            assert forall|i: int| 0 <= i < others.len() implies #[trigger] others[i] != LF by {
                assert(others[i] == text[i + 1]);
            }
            lemma_text(next, others);
            assert(text =~= seq![text[0]] + others);
            assert(next.buf + without_returns(others) =~= state.buf + line.kept());
            lemma_leads_on(state, seq![text[0]], next, others, behind_text(state, line));
        }
    }
}

/// The state in which a line that starts in `state` is complete but for its end. The codes of the
/// reply are `codes`.
spec fn behind_content(
    state: ReceiverView,
    line: Line,
    is_last: bool,
    codes: Seq<u8>,
) -> ReceiverView {
    behind_text(
        ReceiverView { code: codes, is_last, pos: 3 + line.numbers.len(), ..state },
        line,
    )
}

/// The receiver is at the start of a line of a reply with the codes `codes`: the first, where those
/// codes come from the line, or one behind others, where they are known.
pub open spec fn is_at_line(state: ReceiverView, line: Line, codes: Seq<u8>) -> bool {
    &&& state.well_formed()
    &&& state.pos == 0
    &&& !state.is_last
    &&& if state.buf.len() == 0 {
        state.code.skip(3) == seq![0u8, 0, 0] && codes == code_values(line.code) + line.status()
    } else {
        state.code == codes
    }
}

/// Reading a line up to its end.
proof fn lemma_content(state: ReceiverView, line: Line, separator: u8, codes: Seq<u8>)
    requires
        is_at_line(state, line, codes),
        separator == SP || separator == HYPHEN,
        codes.len() == 6,
        line.well_formed(codes.skip(3)),
        line.numbers.len() > 0,
        line.fits(state.buf.len()),
    ensures
        leads(
            state,
            line.content(separator),
            behind_content(state, line, separator == SP, codes),
        ),
{
    let code = line.code;
    let numbers = numbers_bytes(line.numbers);
    let s1 = ReceiverView {
        code: if state.buf.len() == 0 {
            code_values(code) + state.code.skip(3)
        } else {
            state.code
        },
        pos: 3,
        ..state
    };
    let s2 = ReceiverView { is_last: separator == SP, pos: 4, ..s1 };
    let s3 = ReceiverView { code: codes, pos: 3 + line.numbers.len(), ..s2 };
    let s4 = behind_text(s3, line);
    lemma_code(state, code);
    lemma_one_byte(s1, separator);
    assert forall|j: int| 3 <= j < 2 + line.numbers.len() implies #[trigger] codes[j] > 0 by {
        assert(codes[j] == codes.skip(3)[j - 3]);
    }
    if state.buf.len() == 0 {
        assert(s2.code =~= code_values(code) + seq![0u8, 0, 0]);
    }
    lemma_numbers(s2, line.numbers, codes);
    lemma_gap_and_text(s3, line);
    let start = code + line.returns_behind_code;
    lemma_returns(s1, line.returns_behind_code);
    lemma_leads_on(state, code, s1, line.returns_behind_code, s1);
    lemma_leads_on(state, start, s1, seq![separator], s2);
    lemma_leads_on(state, start + seq![separator], s2, numbers, s3);
    lemma_leads_on(state, start + seq![separator] + numbers, s3, line.gap + line.text, s4);
    assert(start + seq![separator] + numbers + (line.gap + line.text) =~= line.content(separator));
}

/// The end of a line, behind the separator, ends the reply on the last line, and starts the next
/// line, with a line feed in the text, on every other.
pub proof fn lemma_line_end(state: ReceiverView, eol: Seq<u8>)
    requires
        state.well_formed(),
        4 <= state.pos,
        is_line_end(eol),
    ensures
        ({
            let received = receive(state, eol);
            if state.is_last {
                &&& received.outcome == Ok::<Reply, ErrorView>(state.reply())
                &&& received.taken == eol.len()
            } else {
                leads(state, eol, ReceiverView { buf: state.buf.push(LF), pos: 0, ..state })
            }
        }),
{
    reveal_with_fuel(receive, 3);
    if eol == seq![LF] {
        assert(eol.skip(1) =~= seq![]);
    } else {
        assert(eol.skip(1) =~= seq![LF]);
        assert(eol.skip(1).skip(1) =~= seq![]);
    }
}

/// Reading a line with a code and nothing behind it.
proof fn lemma_bare_line(state: ReceiverView, line: Line, codes: Seq<u8>)
    requires
        is_at_line(state, line, codes),
        codes.len() == 6,
        line.well_formed(codes.skip(3)),
        line.numbers.len() == 0,
    ensures
        ({
            let received = receive(state, line.content(SP) + line.eol);
            &&& received.outcome == Ok::<Reply, ErrorView>(
                ReceiverView { code: codes, ..state }.reply(),
            )
            &&& received.taken == line.content(SP).len() + line.eol.len()
        }),
{
    let behind = ReceiverView { code: codes, pos: 3, ..state };
    let start = line.content(SP);
    lemma_code(state, line.code);
    if state.buf.len() == 0 {
        assert(line.status() =~= seq![0u8, 0, 0]);
    }
    lemma_returns(behind, line.returns_behind_code);
    lemma_leads_on(state, line.code, behind, line.returns_behind_code, behind);
    if line.eol == seq![LF] {
        assert(line.eol =~= Seq::<u8>::empty() + seq![LF]);
        law_bare_code_ends_reply(behind, seq![]);
    } else {
        assert(line.eol =~= seq![CR] + seq![LF]);
        law_bare_code_ends_reply(behind, seq![CR]);
    }
    law_pieces(state, start, line.eol);
}

/// Reading the lines of a reply from some line on.
proof fn lemma_reply(state: ReceiverView, lines: Seq<Line>, codes: Seq<u8>)
    requires
        are_lines(lines, codes.skip(3)),
        is_at_line(state, lines[0], codes),
        codes.len() == 6,
        fit(state.buf.len(), lines),
    ensures
        ({
            let input = reply_bytes(lines);
            let received = receive(state, input);
            &&& received.outcome == Ok::<Reply, ErrorView>(
                Reply {
                    code: codes.take(3),
                    esc: codes.skip(3),
                    message: state.buf + joined(lines),
                },
            )
            &&& received.taken == input.len()
        }),
    decreases lines.len(),
{
    let is_last = lines.len() == 1;
    let separator = if is_last {
        SP
    } else {
        HYPHEN
    };
    let line = lines[0];
    let content = line.content(separator);
    let behind = behind_content(state, line, is_last, codes);
    assert(line.well_formed(codes.skip(3)));
    assert(codes.subrange(0, 3) =~= codes.take(3));
    assert(codes.subrange(3, 6) =~= codes.skip(3));
    if line.numbers.len() == 0 {
        lemma_bare_line(state, line, codes);
        assert(state.buf + line.kept() =~= state.buf);
    } else {
        lemma_content(state, line, separator, codes);
        lemma_line_end(behind, line.eol);
        law_pieces(state, content, line.eol);
    }
    if !is_last {
        let next = ReceiverView { buf: behind.buf.push(LF), pos: 0, ..behind };
        let others = lines.skip(1);
        assert(are_lines(others, codes.skip(3))) by {
            assert forall|i: int| 0 <= i < others.len() implies (#[trigger] others[i]).well_formed(
                codes.skip(3),
            ) by {
                assert(others[i] == lines[i + 1]);
            }
            assert forall|i: int| 0 <= i < others.len() - 1 implies (
            #[trigger] others[i]).numbers.len() > 0 by {
                assert(others[i] == lines[i + 1]);
            }
        }
        lemma_reply(next, others, codes);
        law_pieces(state, content + line.eol, reply_bytes(others));
        assert(next.buf + joined(others) =~= state.buf + joined(lines));
    }
}

/// A receiver reads back the lines that a reply was made of: the code and the enhanced status code
/// are those of the first line, whatever codes stand on the others, and the texts come with a line
/// feed between any two. Of what follows the reply nothing is taken.
pub proof fn law_reads_lines(lines: Seq<Line>, rest: Seq<u8>)
    requires
        are_lines(lines, lines[0].status()),
        fit(0, lines),
    ensures
        ({
            let input = reply_bytes(lines);
            let received = receive(ReceiverView::fresh(), input + rest);
            &&& received.outcome == Ok::<Reply, ErrorView>(
                Reply {
                    code: code_values(lines[0].code),
                    esc: lines[0].status(),
                    message: joined(lines),
                },
            )
            &&& received.taken == input.len()
        }),
{
    let fresh = ReceiverView::fresh();
    let line = lines[0];
    let codes = code_values(line.code) + line.status();
    assert(line.well_formed(line.status()));
    assert(fresh.code.skip(3) =~= seq![0u8, 0, 0]);
    assert(codes.skip(3) =~= line.status());
    assert(codes.take(3) =~= code_values(line.code));
    lemma_reply(fresh, lines, codes);
    law_pieces(fresh, reply_bytes(lines), rest);
    assert(fresh.buf + joined(lines) =~= joined(lines));
}

/// A line that is not the last takes a receiver to the start of the next: its text is kept, with a
/// line feed behind it, and the codes are those of the reply.
pub proof fn law_line_goes_on(state: ReceiverView, line: Line, codes: Seq<u8>)
    requires
        is_at_line(state, line, codes),
        codes.len() == 6,
        line.well_formed(codes.skip(3)),
        line.numbers.len() > 0,
        line.fits(state.buf.len()),
    ensures
        ({
            let next = ReceiverView {
                buf: state.buf + line.kept() + seq![LF],
                code: codes,
                is_last: false,
                pos: 0,
            };
            &&& leads(state, line.content(HYPHEN) + line.eol, next)
            &&& forall|other: Line| #[trigger] is_at_line(next, other, codes)
        }),
{
    let behind = behind_content(state, line, false, codes);
    let next = ReceiverView { buf: behind.buf.push(LF), pos: 0, ..behind };
    lemma_content(state, line, HYPHEN, codes);
    lemma_line_end(behind, line.eol);
    assert(next.buf =~= state.buf + line.kept() + seq![LF]);
    lemma_leads_on(state, line.content(HYPHEN), behind, line.eol, next);
}

/// At the start of a line only digits are taken for a code: the first other byte is refused.
pub proof fn law_other_bytes_in_code_are_refused(
    state: ReceiverView,
    digits: Seq<u8>,
    byte: u8,
    rest: Seq<u8>,
)
    requires
        state.well_formed(),
        state.pos == 0,
        is_decimal(digits),
        digits.len() < 3,
        !(0x30 <= byte <= 0x39),
    ensures
        ({
            let received = receive(state, digits + seq![byte] + rest);
            &&& received.outcome == Err::<Reply, ErrorView>(
                ErrorView::SyntaxError { syntax: "Invalid response code"@ },
            )
            &&& received.taken == digits.len() + 1
        }),
{
    let input = digits + seq![byte] + rest;
    assert(forall|i: int| 0 <= i < digits.len() ==> #[trigger] input[i] == digits[i]);
    assert(input[digits.len() as int] == byte);
    reveal_with_fuel(receive, 4);
}

/// Behind a code, and any carriage returns, stands a space, a hyphen or the end of the line: every
/// other byte is refused.
pub proof fn law_other_separators_are_refused(
    state: ReceiverView,
    code: Seq<u8>,
    returns_behind_code: Seq<u8>,
    byte: u8,
    rest: Seq<u8>,
)
    requires
        state.well_formed(),
        state.pos == 0,
        is_code(code),
        are_returns(returns_behind_code),
        byte != SP,
        byte != HYPHEN,
        byte != CR,
        byte != LF,
    ensures
        ({
            let received = receive(state, code + returns_behind_code + seq![byte] + rest);
            &&& received.outcome == Err::<Reply, ErrorView>(
                ErrorView::SyntaxError { syntax: "Invalid response separator"@ },
            )
            &&& received.taken == code.len() + returns_behind_code.len() + 1
        }),
{
    lemma_code(state, code);
    let behind = receive(state, code).state;
    let start = code + returns_behind_code;
    let tail = seq![byte] + rest;
    lemma_returns(behind, returns_behind_code);
    lemma_leads_on(state, code, behind, returns_behind_code, behind);
    law_pieces(state, start, tail);
    assert(start + tail =~= start + seq![byte] + rest);
    assert(tail[0] == byte);
}

/// Once the text has reached its longest length, the next byte of text is refused.
pub proof fn law_text_beyond_longest_length_is_refused(
    state: ReceiverView,
    line: Line,
    codes: Seq<u8>,
    separator: u8,
    byte: u8,
    rest: Seq<u8>,
)
    requires
        is_at_line(state, line, codes),
        codes.len() == 6,
        line.well_formed(codes.skip(3)),
        line.gap.len() + line.text.len() > 0,
        line.fits(state.buf.len()),
        separator == SP || separator == HYPHEN,
        state.buf.len() + line.kept().len() >= 4096,
        byte != CR,
        byte != LF,
    ensures
        ({
            let received = receive(state, line.content(separator) + seq![byte] + rest);
            &&& received.outcome == Err::<Reply, ErrorView>(ErrorView::ResponseTooLong)
            &&& received.taken == line.content(separator).len() + 1
        }),
{
    let content = line.content(separator);
    let tail = seq![byte] + rest;
    lemma_content(state, line, separator, codes);
    law_pieces(state, content, tail);
    assert(content + tail =~= content + seq![byte] + rest);
    assert(tail[0] == byte);
}

/// A reply ends with a line feed. It is made of what the receiver had before that byte. Afterwards
/// the receiver has no text, but keeps the codes, and stays on the last line until it is reset.
pub proof fn law_receiver_after_reply(state: ReceiverView, bytes: Seq<u8>)
    requires
        receive(state, bytes).outcome is Ok,
    ensures
        ({
            let received = receive(state, bytes);
            let before = receive(state, bytes.take(received.taken - 1));
            &&& 0 < received.taken <= bytes.len()
            &&& bytes[received.taken - 1] == LF
            &&& needs_more(before)
            &&& before.state.is_last || before.state.pos == 3
            &&& received.outcome == Ok::<Reply, ErrorView>(
                Reply {
                    code: before.state.code.subrange(0, 3),
                    esc: before.state.code.subrange(3, 6),
                    message: before.state.buf,
                },
            )
            &&& received.state == (ReceiverView {
                buf: seq![],
                code: before.state.code,
                is_last: true,
                pos: if 4 <= before.state.pos <= 6 {
                    7
                } else {
                    before.state.pos
                },
            })
        }),
    decreases bytes.len(),
{
    let received = receive(state, bytes);
    let before = bytes.take(received.taken - 1);
    if let Step::More(next) = feed(state, bytes[0]) {
        law_receiver_after_reply(next, bytes.skip(1));
        assert(before[0] == bytes[0]);
        assert(before.skip(1) =~= bytes.skip(1).take(received.taken - 2));
    }
}

/// A result that is an outcome tells that outcome and nothing else: the codes and the text of the
/// reply, or the reason for which it was refused.
pub proof fn law_result_tells_outcome(
    result: Result<Response<String>, Error>,
    outcome: Result<Reply, ErrorView>,
)
    requires
        is_outcome(result, outcome),
    ensures
        match outcome {
            Ok(reply) => {
                &&& result matches Ok(response)
                &&& response.code@ == reply.code
                &&& response.esc@ == reply.esc
                &&& valid_utf8(reply.message) ==> encode_utf8(response.message@) == reply.message
                &&& !valid_utf8(reply.message) ==> response.message@ == lossy_text(reply.message)
            },
            Err(ErrorView::NeedsMoreData { bytes_left }) => {
                &&& result matches Err(Error::NeedsMoreData { bytes_left: left })
                &&& left == bytes_left
            },
            Err(ErrorView::UnknownCommand) => result matches Err(Error::UnknownCommand),
            Err(ErrorView::SyntaxError { syntax }) => {
                &&& result matches Err(Error::SyntaxError { syntax: text })
                &&& text@ == syntax
            },
            Err(ErrorView::ResponseTooLong) => result matches Err(Error::ResponseTooLong),
        },
{
    if let (Ok(response), Ok(reply)) = (result, outcome) {
        law_text_of_bytes(response.message@, reply.message);
    }
}

/// The digits of an enhanced status code.
pub struct Status {
    pub class: Seq<u8>,
    pub subject: Seq<u8>,
    pub detail: Seq<u8>,
}

impl Status {
    /// Three numbers, the first two of which are not zero.
    pub open spec fn well_formed(self) -> bool {
        &&& is_number(self.class)
        &&& is_number(self.subject)
        &&& is_number(self.detail)
        &&& number(self.class) > 0
        &&& number(self.subject) > 0
    }
}

/// The numbers of an enhanced status code; all zero where there is none.
pub open spec fn status_values(status: Option<Status>) -> Seq<u8> {
    match status {
        Some(status) => seq![number(status.class), number(status.subject), number(status.detail)],
        None => seq![0, 0, 0],
    }
}

/// The lines with the given texts, with the same code and the same enhanced status code, if any,
/// on each of them.
pub open spec fn uniform_lines(
    code: Seq<u8>,
    status: Option<Status>,
    texts: Seq<Seq<u8>>,
    eol: Seq<u8>,
) -> Seq<Line> {
    texts.map_values(
        |text: Seq<u8>|
            match status {
                Some(status) => Line {
                    code,
                    returns_behind_code: seq![],
                    numbers: seq![status.class, status.subject, status.detail],
                    gap: seq![SP],
                    text,
                    eol,
                },
                None => Line {
                    code,
                    returns_behind_code: seq![],
                    numbers: seq![seq![]],
                    gap: seq![],
                    text,
                    eol,
                },
            },
    )
}

/// A receiver reads back a reply that has the same code on each of its lines, and the same
/// enhanced status code, if any. Where there is none, no text starts with a digit or white space.
pub proof fn law_reads_reply(
    code: Seq<u8>,
    status: Option<Status>,
    texts: Seq<Seq<u8>>,
    eol: Seq<u8>,
    rest: Seq<u8>,
)
    requires
        is_code(code),
        status matches Some(status) ==> status.well_formed(),
        texts.len() > 0,
        forall|i: int| 0 <= i < texts.len() ==> is_line_text(#[trigger] texts[i]),
        status is None ==> forall|i: int|
            0 <= i < texts.len() && (#[trigger] texts[i]).len() > 0 ==> !(0x30 <= texts[i][0]
                <= 0x39) && !is_gap(texts[i][0]),
        fit(0, uniform_lines(code, status, texts, eol)),
        is_line_end(eol),
    ensures
        ({
            let lines = uniform_lines(code, status, texts, eol);
            let input = reply_bytes(lines);
            let received = receive(ReceiverView::fresh(), input + rest);
            &&& received.outcome == Ok::<Reply, ErrorView>(
                Reply {
                    code: code_values(code),
                    esc: status_values(status),
                    message: joined(lines),
                },
            )
            &&& received.taken == input.len()
            &&& forall|i: int| 0 <= i < lines.len() ==> (#[trigger] lines[i]).kept() == texts[i]
        }),
{
    let lines = uniform_lines(code, status, texts, eol);
    assert forall|i: int| 0 <= i < lines.len() implies (#[trigger] lines[i]).kept() == texts[i] by {
        assert(is_line_text(texts[i]));
        lemma_without_returns_keeps(texts[i]);
    }
    assert(lines[0].status() =~= status_values(status));
    assert forall|i: int| 0 <= i < lines.len() implies (#[trigger] lines[i]).well_formed(
        lines[0].status(),
    ) by {
        assert(is_line_text(texts[i]));
    }
    law_reads_lines(lines, rest);
}

/// The bytes with a carriage return put before each line feed.
pub open spec fn with_carriage_returns(bytes: Seq<u8>) -> Seq<u8>
    decreases bytes.len(),
{
    if bytes.len() == 0 {
        seq![]
    } else if bytes[0] == LF {
        seq![CR, LF] + with_carriage_returns(bytes.skip(1))
    } else {
        seq![bytes[0]] + with_carriage_returns(bytes.skip(1))
    }
}

/// It does not matter whether lines end in a line feed alone or in a carriage return and a line
/// feed, whatever the bytes are: the outcome and the receiver afterwards are the same, and where a
/// reply is complete, it ends at the same place.
pub proof fn law_line_ends(state: ReceiverView, bytes: Seq<u8>)
    requires
        state.well_formed(),
    ensures
        ({
            let received = receive(state, bytes);
            let received2 = receive(state, with_carriage_returns(bytes));
            &&& received2.outcome == received.outcome
            &&& received2.state == received.state
            &&& received.outcome is Ok ==> received2.taken == with_carriage_returns(
                bytes.take(received.taken as int),
            ).len()
        }),
    decreases bytes.len(),
{
    if bytes.len() > 0 {
        let byte = bytes[0];
        let others = bytes.skip(1);
        let bytes2 = with_carriage_returns(bytes);
        let others2 = with_carriage_returns(others);
        let received = receive(state, bytes);
        law_receiver_stays_well_formed(state, bytes);
        if received.taken > 0 {
            let taken = bytes.take(received.taken as int);
            assert(taken[0] == byte);
            assert(taken.skip(1) =~= others.take(received.taken - 1));
            if received.taken == 1 {
                assert(with_carriage_returns(taken.skip(1)).len() == 0);
            }
        }
        if byte == LF {
            assert(bytes2[0] == CR);
            assert(bytes2.skip(1)[0] == LF);
            assert(bytes2.skip(1).skip(1) =~= others2);
            reveal_with_fuel(receive, 3);
        } else {
            assert(bytes2.skip(1) =~= others2);
        }
        if let Step::More(next) = feed(state, byte) {
            law_receiver_stays_well_formed(state, seq![byte]);
            lemma_one_byte(state, byte);
            law_line_ends(next, others);
        }
    }
}

} // verus!
