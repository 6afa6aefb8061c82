//! Reading the words, numbers and texts that the lines of a reply are made of.

use crate::ascii::{digit_value, is_digit, to_upper, CR, LF, SP};
use crate::offers::{find_mechanism, mechanism_bit, uppercase};
use crate::tokens::{is_keyword_char, is_word, packed, push_token, MAX_KEYWORD_LENGTH};
use crate::types::{Error, ErrorView};
use vstd::prelude::*;

verus! {

/// What was read from some input, the byte that it stopped at, and the input behind that byte.
#[verifier::ext_equal]
pub struct Scanned<T> {
    pub value: T,
    pub stop: u8,
    pub rest: Seq<u8>,
}

/// Reads the rest of a keyword of which `word` has been read. Spaces before a keyword and carriage
/// returns are passed over. A keyword stops at the first byte that is not part of it, which may be
/// the one behind its longest length. Gives nothing where the input ends before that.
pub open spec fn scan_keyword(input: Seq<u8>, word: Seq<u8>) -> Option<Scanned<Seq<u8>>>
    decreases input.len(),
{
    if input.len() == 0 {
        None
    } else {
        let byte = input[0];
        let rest = input.skip(1);
        if byte == CR || byte == SP && word.len() == 0 {
            scan_keyword(rest, word)
        } else if is_keyword_char(byte) && word.len() < MAX_KEYWORD_LENGTH {
            scan_keyword(rest, word.push(to_upper(byte)))
        } else {
            Some(Scanned { value: word, stop: byte, rest })
        }
    }
}

/// Reads the rest of a number of which `number` has been read. Spaces before a number and carriage
/// returns are passed over. A number stops at the first byte that is not a digit; there is none
/// where that byte comes first.
pub open spec fn scan_number(input: Seq<u8>, number: Option<nat>) -> Option<
    Scanned<Option<nat>>,
>
    decreases input.len(),
{
    if input.len() == 0 {
        None
    } else {
        let byte = input[0];
        let rest = input.skip(1);
        if byte == CR || byte == SP && number is None {
            scan_number(rest, number)
        } else if is_digit(byte) {
            let high = match number {
                Some(number) => number * 10,
                None => 0,
            };
            scan_number(rest, Some(high + digit_value(byte) as nat))
        } else {
            Some(Scanned { value: number, stop: byte, rest })
        }
    }
}

/// Reads the rest of a text of which `text` has been read. Spaces before a text and carriage
/// returns are passed over. A text stops at a space or at the end of the line.
pub open spec fn scan_text(input: Seq<u8>, text: Seq<u8>) -> Option<Scanned<Seq<u8>>>
    decreases input.len(),
{
    if input.len() == 0 {
        None
    } else {
        let byte = input[0];
        let rest = input.skip(1);
        if byte == CR || byte == SP && text.len() == 0 {
            scan_text(rest, text)
        } else if byte == SP || byte == LF {
            Some(Scanned { value: text, stop: byte, rest })
        } else {
            scan_text(rest, text.push(byte))
        }
    }
}

/// The input behind the line that it starts in; nothing where that line does not end.
pub open spec fn after_line(input: Seq<u8>) -> Option<Seq<u8>>
    decreases input.len(),
{
    if input.len() == 0 {
        None
    } else if input[0] == LF {
        Some(input.skip(1))
    } else {
        after_line(input.skip(1))
    }
}

/// The input behind the line in which the byte `stop`, just before `input`, was read.
pub open spec fn skip_line(stop: u8, input: Seq<u8>) -> Option<Seq<u8>> {
    if stop == LF {
        Some(input)
    } else {
        after_line(input)
    }
}

/// What stands behind a line is shorter than what starts with it.
pub proof fn lemma_after_line_shrinks(input: Seq<u8>)
    ensures
        after_line(input) matches Some(rest) ==> rest.len() < input.len(),
    decreases input.len(),
{
    if input.len() > 0 {
        lemma_after_line_shrinks(input.skip(1));
    }
}

/// Reading a keyword does not leave the line.
pub proof fn lemma_keyword_in_line(input: Seq<u8>, word: Seq<u8>)
    ensures
        match scan_keyword(input, word) {
            Some(scanned) => {
                &&& skip_line(scanned.stop, scanned.rest) == after_line(input)
                &&& scanned.rest.len() < input.len()
            },
            None => after_line(input) is None,
        },
    decreases input.len(),
{
    if input.len() > 0 {
        lemma_keyword_in_line(input.skip(1), word);
        lemma_keyword_in_line(input.skip(1), word.push(to_upper(input[0])));
    }
}

/// Reading a number does not leave the line.
pub proof fn lemma_number_in_line(input: Seq<u8>, number: Option<nat>)
    ensures
        match scan_number(input, number) {
            Some(scanned) => {
                &&& skip_line(scanned.stop, scanned.rest) == after_line(input)
                &&& scanned.rest.len() < input.len()
            },
            None => after_line(input) is None,
        },
    decreases input.len(),
{
    if input.len() > 0 {
        lemma_number_in_line(input.skip(1), number);
        lemma_number_in_line(input.skip(1), Some(
            match number {
                Some(number) => number * 10,
                None => 0,
            } + digit_value(input[0]) as nat,
        ));
    }
}

/// Reading a text does not leave the line.
pub proof fn lemma_text_in_line(input: Seq<u8>, text: Seq<u8>)
    ensures
        match scan_text(input, text) {
            Some(scanned) => {
                &&& skip_line(scanned.stop, scanned.rest) == after_line(input)
                &&& scanned.rest.len() < input.len()
            },
            None => after_line(input) is None,
        },
    decreases input.len(),
{
    if input.len() > 0 {
        lemma_text_in_line(input.skip(1), text);
        lemma_text_in_line(input.skip(1), text.push(input[0]));
    }
}

/// The number that stands for one that was read: it is cut at the largest `usize`, which also
/// stands for a number that is not there.
pub open spec fn size_of_number(number: Option<nat>) -> usize {
    match number {
        Some(number) if number < usize::MAX => number as usize,
        _ => usize::MAX,
    }
}

/// A position in the lines of a reply, and the byte at which the last reading stopped.
pub struct Rfc5321Parser<'x> {
    pub data: &'x [u8],
    pub pos: usize,
    pub stop_char: u8,
}

impl<'x> Rfc5321Parser<'x> {
    /// What holds of every parser.
    pub open spec fn well_formed(self) -> bool {
        self.pos <= self.data@.len()
    }

    /// All of the input.
    pub open spec fn input(self) -> Seq<u8> {
        self.data@
    }

    /// How much of the input has been read.
    pub open spec fn offset(self) -> nat {
        self.pos as nat
    }

    /// The input that has not been read.
    pub open spec fn rest(self) -> Seq<u8> {
        self.input().skip(self.offset() as int)
    }

    /// This parser has come from `start` by reading.
    pub open spec fn follows(self, start: Self) -> bool {
        &&& self.well_formed()
        &&& self.input() == start.input()
        &&& start.offset() <= self.offset() <= self.input().len()
    }

    /// This parser has come from `start` by reading what `scanned` tells.
    pub open spec fn has_read<T>(self, start: Self, scanned: Scanned<T>) -> bool {
        &&& self.follows(start)
        &&& self.stop_char == scanned.stop
        &&& self.rest() == scanned.rest
    }

    /// This parser has come from `start` to the end of the input, and `error` tells so.
    pub open spec fn has_run_out(self, start: Self, error: Error) -> bool {
        &&& self.follows(start)
        &&& self.rest().len() == 0
        &&& error@ == (ErrorView::NeedsMoreData { bytes_left: self.input().len() })
    }

    /// A parser at the start of `data`.
    pub fn new(data: &'x [u8]) -> (parser: Self)
        ensures
            parser.well_formed(),
            parser.input() == data@,
            parser.offset() == 0,
            parser.rest() == data@,
    {
        let parser = Rfc5321Parser { data, pos: 0, stop_char: 0 };
        assert(parser.rest() =~= data@);
        parser
    }

    /// How much of the input has been read.
    pub fn position(&self) -> (pos: usize)
        requires
            self.well_formed(),
        ensures
            pos == self.offset(),
            pos <= self.input().len(),
    {
        self.pos
    }

    /// The error that tells that the input has run out. None of the input is kept.
    fn needs_more_data(&self) -> (error: Error)
        ensures
            error@ == (ErrorView::NeedsMoreData { bytes_left: self.input().len() }),
    {
        Error::NeedsMoreData { bytes_left: self.data.len() }
    }

    /// Reads one byte.
    pub fn read_char(&mut self) -> (result: Result<u8, Error>)
        requires
            old(self).well_formed(),
        ensures
            match result {
                Ok(byte) => {
                    &&& old(self).rest().len() > 0
                    &&& byte == old(self).rest()[0]
                    &&& final(self).has_read(
                        *old(self),
                        Scanned { value: byte, stop: byte, rest: old(self).rest().skip(1) },
                    )
                    &&& final(self).offset() == old(self).offset() + 1
                },
                Err(error) => {
                    &&& old(self).rest().len() == 0
                    &&& final(self).has_run_out(*old(self), error)
                },
            },
    {
        if self.pos < self.data.len() {
            let byte = self.data[self.pos];
            self.pos = self.pos + 1;
            self.stop_char = byte;
            assert(self.rest() =~= old(self).rest().skip(1));
            Ok(byte)
        } else {
            Err(self.needs_more_data())
        }
    }

    /// Reads a keyword, and gives its token.
    pub fn hashed_value_long(&mut self) -> (result: Result<u128, Error>)
        requires
            old(self).well_formed(),
        ensures
            match scan_keyword(old(self).rest(), seq![]) {
                Some(scanned) => {
                    &&& is_word(scanned.value)
                    &&& result matches Ok(token)
                    &&& token == packed(scanned.value)
                    &&& final(self).has_read(*old(self), scanned)
                },
                None => {
                    &&& result matches Err(error)
                    &&& final(self).has_run_out(*old(self), error)
                },
            },
    {
        let mut token: u128 = 0;
        let mut length: usize = 0;
        let ghost mut word: Seq<u8> = seq![];
        loop
            invariant
                self.follows(*old(self)),
                length <= MAX_KEYWORD_LENGTH,
                word.len() == length,
                is_word(word),
                token == packed(word),
                scan_keyword(old(self).rest(), seq![]) == scan_keyword(self.rest(), word),
            decreases self.rest().len(),
        {
            let byte = match self.read_char() {
                Ok(byte) => byte,
                Err(error) => {
                    return Err(error);
                },
            };
            if byte == CR || (byte == SP && length == 0) {
            } else if is_keyword_char(byte) && length < MAX_KEYWORD_LENGTH {
                token = push_token(token, length, to_upper(byte), Ghost(word));
                length = length + 1;
                proof {
                    word = word.push(to_upper(byte));
                }
            } else {
                return Ok(token);
            }
        }
    }

    /// Reads a number, which the largest `usize` stands for where there is none.
    pub fn size(&mut self) -> (result: Result<usize, Error>)
        requires
            old(self).well_formed(),
        ensures
            match scan_number(old(self).rest(), None) {
                Some(scanned) => {
                    &&& result == Ok::<usize, Error>(size_of_number(scanned.value))
                    &&& final(self).has_read(*old(self), scanned)
                },
                None => {
                    &&& result matches Err(error)
                    &&& final(self).has_run_out(*old(self), error)
                },
            },
    {
        let mut value: usize = usize::MAX;
        let mut is_empty: bool = true;
        let ghost mut number: Option<nat> = None;
        loop
            invariant
                self.follows(*old(self)),
                is_empty == (number is None),
                value == size_of_number(number),
                scan_number(old(self).rest(), None) == scan_number(self.rest(), number),
            decreases self.rest().len(),
        {
            let byte = match self.read_char() {
                Ok(byte) => byte,
                Err(error) => {
                    return Err(error);
                },
            };
            if byte == CR || (byte == SP && is_empty) {
            } else if is_digit(byte) {
                let digit: usize = digit_value(byte) as usize;
                value = if is_empty {
                    digit
                } else {
                    match value.checked_mul(10) {
                        Some(high) => high.saturating_add(digit),
                        None => usize::MAX,
                    }
                };
                is_empty = false;
                proof {
                    number = Some(
                        match number {
                            Some(number) => number * 10,
                            None => 0,
                        } + digit as nat,
                    );
                }
            } else {
                return Ok(value);
            }
        }
    }

    /// Reads a text.
    pub fn text(&mut self) -> (result: Result<Vec<u8>, Error>)
        requires
            old(self).well_formed(),
        ensures
            match scan_text(old(self).rest(), seq![]) {
                Some(scanned) => {
                    &&& result matches Ok(text)
                    &&& text@ == scanned.value
                    &&& final(self).has_read(*old(self), scanned)
                },
                None => {
                    &&& result matches Err(error)
                    &&& final(self).has_run_out(*old(self), error)
                },
            },
    {
        let mut text: Vec<u8> = Vec::new();
        loop
            invariant
                self.follows(*old(self)),
                scan_text(old(self).rest(), seq![]) == scan_text(self.rest(), text@),
            decreases self.rest().len(),
        {
            let byte = match self.read_char() {
                Ok(byte) => byte,
                Err(error) => {
                    return Err(error);
                },
            };
            if byte == CR || (byte == SP && text.is_empty()) {
            } else if byte == SP || byte == LF {
                return Ok(text);
            } else {
                text.push(byte);
            }
        }
    }

    /// Reads the name of a SASL mechanism, and gives its bit where it is a known one.
    pub fn mechanism(&mut self) -> (result: Result<Option<u64>, Error>)
        requires
            old(self).well_formed(),
        ensures
            match scan_text(old(self).rest(), seq![]) {
                Some(scanned) => {
                    &&& result == Ok::<Option<u64>, Error>(mechanism_bit(uppercase(scanned.value)))
                    &&& final(self).has_read(*old(self), scanned)
                },
                None => {
                    &&& result matches Err(error)
                    &&& final(self).has_run_out(*old(self), error)
                },
            },
    {
        match self.text() {
            Ok(name) => Ok(find_mechanism(&name)),
            Err(error) => Err(error),
        }
    }

    /// Reads up to the end of the line, where it has not been read yet.
    pub fn seek_lf(&mut self) -> (result: Result<(), Error>)
        requires
            old(self).well_formed(),
        ensures
            match skip_line(old(self).stop_char, old(self).rest()) {
                Some(rest) => {
                    &&& result is Ok
                    &&& final(self).has_read(*old(self), Scanned { value: (), stop: LF, rest })
                },
                None => {
                    &&& result matches Err(error)
                    &&& final(self).has_run_out(*old(self), error)
                },
            },
    {
        while self.stop_char != LF
            invariant
                self.follows(*old(self)),
                skip_line(old(self).stop_char, old(self).rest()) == skip_line(
                    self.stop_char,
                    self.rest(),
                ),
            decreases self.rest().len(),
        {
            match self.read_char() {
                Ok(_) => {},
                Err(error) => {
                    return Err(error);
                },
            }
        }
        Ok(())
    }
}

} // verus!
