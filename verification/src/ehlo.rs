//! The answer to EHLO: the name of the server, and one line for each extension that it offers.

use crate::ascii::{digit_value, is_digit, to_upper, CR, HYPHEN, LF, SP};
use crate::offers::{
    extension_bit, find_extension, mechanism_bit, uppercase, EXT_ENHANCED_STATUS_CODES,
};
use crate::reader::{
    after_line, lemma_after_line_shrinks, lemma_keyword_in_line, lemma_number_in_line,
    lemma_text_in_line, scan_keyword, scan_number, scan_text, size_of_number, skip_line,
    Rfc5321Parser, Scanned,
};
use crate::receiver::MAX_REPONSE_LENGTH;
use crate::text::{advance, bytes_of, into_string, is_text, lemma_bytes_of_ascii};
use crate::tokens;
use crate::tokens::{is_word, lemma_tokens, packed};
use crate::types::{is_optional_text, EhloReply, EhloResponse, Error, ErrorView, MtPriority};
use core::slice::Iter;
use vstd::prelude::*;
use vstd::std_specs::iter::IteratorSpec;

verus! {

pub const LETTER_D: u8 = 0x44;

pub const LETTER_E: u8 = 0x45;

pub const LETTER_S: u8 = 0x53;

/// What comes of reading some input.
pub enum Parsed<T> {
    /// A value, and the input behind it.
    Done(T, Seq<u8>),
    /// The input is refused; the input behind the byte that was refused.
    Failed(ErrorView, Seq<u8>),
    /// The input ends too early.
    Short,
}

/// What the code and the separator at the start of a line tell.
pub enum Header {
    /// The line has text.
    Line { is_last: bool },
    /// The line has none, and ends the answer.
    End,
}

/// The error for a byte where the grammar does not allow it.
pub open spec fn unexpected_token() -> ErrorView {
    ErrorView::SyntaxError { syntax: "unexpected token"@ }
}

/// Reads the code and the separator at the start of a line. The code of every line is 250.
pub open spec fn read_header(input: Seq<u8>) -> Parsed<Header> {
    if input.len() > 0 && !is_digit(input[0]) {
        Parsed::Failed(unexpected_token(), input.skip(1))
    } else if input.len() > 1 && !is_digit(input[1]) {
        Parsed::Failed(unexpected_token(), input.skip(2))
    } else if input.len() > 2 && !is_digit(input[2]) {
        Parsed::Failed(unexpected_token(), input.skip(3))
    } else if input.len() < 3 {
        Parsed::Short
    } else if input.take(3) != bytes_of("250") {
        Parsed::Failed(ErrorView::UnknownCommand, input.skip(3))
    } else if input.len() == 3 {
        Parsed::Short
    } else if input[3] == SP {
        Parsed::Done(Header::Line { is_last: true }, input.skip(4))
    } else if input[3] == HYPHEN {
        Parsed::Done(Header::Line { is_last: false }, input.skip(4))
    } else if input[3] == LF {
        Parsed::Done(Header::End, input.skip(4))
    } else {
        Parsed::Failed(unexpected_token(), input.skip(4))
    }
}

/// Reads the first line, of whose host name `host` has been read. The name ends at a space or at
/// the end of the line; what follows it on the line is passed over.
pub open spec fn read_hostname(input: Seq<u8>, host: Seq<u8>) -> Parsed<Seq<u8>>
    decreases input.len(),
{
    if input.len() == 0 {
        Parsed::Short
    } else {
        let byte = input[0];
        let rest = input.skip(1);
        if byte == LF {
            Parsed::Done(host, rest)
        } else if byte == CR {
            read_hostname(rest, host)
        } else if byte == SP {
            match after_line(rest) {
                Some(next) => Parsed::Done(host, next),
                None => Parsed::Short,
            }
        } else if host.len() < MAX_REPONSE_LENGTH {
            read_hostname(rest, host.push(byte))
        } else {
            Parsed::Failed(ErrorView::ResponseTooLong, rest)
        }
    }
}

/// Reads the mechanisms up to the end of the line, and adds their bits to `bits`. Names that are
/// not known add none.
pub open spec fn read_mechanisms(stop: u8, input: Seq<u8>, bits: u64) -> Option<Scanned<u64>>
    decreases input.len(),
    via read_mechanisms_decreases
{
    if stop == LF {
        Some(Scanned { value: bits, stop, rest: input })
    } else {
        match scan_text(input, seq![]) {
            Some(name) => read_mechanisms(
                name.stop,
                name.rest,
                match mechanism_bit(uppercase(name.value)) {
                    Some(bit) => bits | bit,
                    None => bits,
                },
            ),
            None => None,
        }
    }
}

#[via_fn]
proof fn read_mechanisms_decreases(stop: u8, input: Seq<u8>, bits: u64) {
    lemma_text_in_line(input, seq![]);
}

/// Reads the number behind a keyword; it is 0 where there is none, or where it is too large.
pub open spec fn read_number(stop: u8, input: Seq<u8>) -> Option<Scanned<usize>> {
    if stop == LF {
        Some(Scanned { value: 0, stop, rest: input })
    } else {
        match scan_number(input, None) {
            Some(number) => Some(
                Scanned {
                    value: if size_of_number(number.value) == usize::MAX {
                        0
                    } else {
                        size_of_number(number.value)
                    },
                    stop: number.stop,
                    rest: number.rest,
                },
            ),
            None => None,
        }
    }
}

/// The priority assignment policy that a keyword names; MIXER where it names none.
pub open spec fn priority(word: Seq<u8>) -> MtPriority {
    if word == bytes_of("STANAG4406") {
        MtPriority::Stanag4406
    } else if word == bytes_of("NSEP") {
        MtPriority::Nsep
    } else {
        MtPriority::Mixer
    }
}

/// Reads the priority assignment policy behind a keyword.
pub open spec fn read_priority(stop: u8, input: Seq<u8>) -> Option<Scanned<MtPriority>> {
    if stop == LF {
        Some(Scanned { value: MtPriority::Mixer, stop, rest: input })
    } else {
        match scan_keyword(input, seq![]) {
            Some(word) => Some(
                Scanned { value: priority(word.value), stop: word.stop, rest: word.rest },
            ),
            None => None,
        }
    }
}

/// Reads the text behind a keyword, where there is one.
pub open spec fn read_text(stop: u8, input: Seq<u8>) -> Option<Scanned<Option<Seq<u8>>>> {
    if stop == LF {
        Some(Scanned { value: None, stop, rest: input })
    } else {
        match scan_text(input, seq![]) {
            Some(text) => Some(
                Scanned {
                    value: if text.value.len() == 0 {
                        None
                    } else {
                        Some(text.value)
                    },
                    stop: text.stop,
                    rest: text.rest,
                },
            ),
            None => None,
        }
    }
}

/// Reads the end of ENHANCEDSTATUSCODES, of which the first 16 letters have been read. Reading
/// goes on for as long as the letters fit.
pub open spec fn read_des(stop: u8, input: Seq<u8>) -> Option<Scanned<bool>> {
    if to_upper(stop) != LETTER_D {
        Some(Scanned { value: false, stop, rest: input })
    } else if input.len() == 0 {
        None
    } else if to_upper(input[0]) != LETTER_E {
        Some(Scanned { value: false, stop: input[0], rest: input.skip(1) })
    } else if input.len() == 1 {
        None
    } else {
        Some(
            Scanned {
                value: to_upper(input[1]) == LETTER_S,
                stop: input[1],
                rest: input.skip(2),
            },
        )
    }
}

/// Reads what stands behind the keyword `word` on its line, as far as it counts, and adds it and
/// the extension to what is known of the server.
pub open spec fn read_parameters(
    known: EhloReply,
    word: Seq<u8>,
    stop: u8,
    input: Seq<u8>,
) -> Option<Scanned<EhloReply>> {
    let named = EhloReply { capabilities: known.capabilities | extension_bit(word), ..known };
    if word == bytes_of("ENHANCEDSTATUSCO") {
        match read_des(stop, input) {
            Some(fits) => Some(
                Scanned {
                    value: EhloReply {
                        capabilities: known.capabilities | if fits.value {
                            EXT_ENHANCED_STATUS_CODES
                        } else {
                            0
                        },
                        ..known
                    },
                    stop: fits.stop,
                    rest: fits.rest,
                },
            ),
            None => None,
        }
    } else if word == bytes_of("AUTH") {
        match read_mechanisms(stop, input, known.auth_mechanisms) {
            Some(bits) => Some(
                Scanned {
                    value: EhloReply { auth_mechanisms: bits.value, ..named },
                    stop: bits.stop,
                    rest: bits.rest,
                },
            ),
            None => None,
        }
    } else if word == bytes_of("DELIVERBY") {
        match read_number(stop, input) {
            Some(number) => Some(
                Scanned {
                    value: EhloReply { deliver_by: number.value as u64, ..named },
                    stop: number.stop,
                    rest: number.rest,
                },
            ),
            None => None,
        }
    } else if word == bytes_of("FUTURERELEASE") {
        match read_number(stop, input) {
            Some(interval) => match read_number(interval.stop, interval.rest) {
                Some(datetime) => Some(
                    Scanned {
                        value: EhloReply {
                            future_release_interval: interval.value as u64,
                            future_release_datetime: datetime.value as u64,
                            ..named
                        },
                        stop: datetime.stop,
                        rest: datetime.rest,
                    },
                ),
                None => None,
            },
            None => None,
        }
    } else if word == bytes_of("MT-PRIORITY") {
        match read_priority(stop, input) {
            Some(priority) => Some(
                Scanned {
                    value: EhloReply { mt_priority: priority.value, ..named },
                    stop: priority.stop,
                    rest: priority.rest,
                },
            ),
            None => None,
        }
    } else if word == bytes_of("NO-SOLICITING") {
        match read_text(stop, input) {
            Some(text) => Some(
                Scanned {
                    value: EhloReply { no_soliciting: text.value, ..named },
                    stop: text.stop,
                    rest: text.rest,
                },
            ),
            None => None,
        }
    } else if word == bytes_of("SIZE") {
        match read_number(stop, input) {
            Some(number) => Some(
                Scanned {
                    value: EhloReply { size: number.value, ..named },
                    stop: number.stop,
                    rest: number.rest,
                },
            ),
            None => None,
        }
    } else {
        Some(Scanned { value: named, stop, rest: input })
    }
}

/// Reads a line that offers an extension, behind its separator, and adds what it tells to what is
/// known of the server. Gives the input behind the line along with it.
pub open spec fn read_extension(known: EhloReply, input: Seq<u8>) -> Option<(EhloReply, Seq<u8>)> {
    match scan_keyword(input, seq![]) {
        Some(word) => match read_parameters(known, word.value, word.stop, word.rest) {
            Some(told) => match skip_line(told.stop, told.rest) {
                Some(rest) => Some((told.value, rest)),
                None => None,
            },
            None => None,
        },
        None => None,
    }
}

/// Reading the mechanisms does not leave the line.
proof fn lemma_mechanisms_in_line(stop: u8, input: Seq<u8>, bits: u64)
    ensures
        match read_mechanisms(stop, input, bits) {
            Some(scanned) => skip_line(scanned.stop, scanned.rest) == skip_line(stop, input),
            None => skip_line(stop, input) is None,
        },
    decreases input.len(),
{
    if stop != LF {
        lemma_text_in_line(input, seq![]);
        if let Some(name) = scan_text(input, seq![]) {
            lemma_mechanisms_in_line(
                name.stop,
                name.rest,
                match mechanism_bit(uppercase(name.value)) {
                    Some(bit) => bits | bit,
                    None => bits,
                },
            );
        }
    }
}

/// Reading a number behind a keyword does not leave the line.
proof fn lemma_read_number_in_line(stop: u8, input: Seq<u8>)
    ensures
        match read_number(stop, input) {
            Some(scanned) => skip_line(scanned.stop, scanned.rest) == skip_line(stop, input),
            None => skip_line(stop, input) is None,
        },
{
    lemma_number_in_line(input, None);
}

/// Reading what stands behind a keyword does not leave the line.
proof fn lemma_parameters_in_line(known: EhloReply, word: Seq<u8>, stop: u8, input: Seq<u8>)
    ensures
        match read_parameters(known, word, stop, input) {
            Some(scanned) => skip_line(scanned.stop, scanned.rest) == skip_line(stop, input),
            None => skip_line(stop, input) is None,
        },
{
    lemma_mechanisms_in_line(stop, input, known.auth_mechanisms);
    lemma_read_number_in_line(stop, input);
    if let Some(number) = read_number(stop, input) {
        lemma_read_number_in_line(number.stop, number.rest);
    }
    lemma_keyword_in_line(input, seq![]);
    lemma_text_in_line(input, seq![]);
    reveal_with_fuel(after_line, 3);
    if input.len() > 1 {
        assert(input.skip(1).skip(1) =~= input.skip(2));
    }
}

/// A line that offers an extension is read from its separator to its end, and no further,
/// whatever it holds. A line that has not arrived whole gives nothing.
pub proof fn law_extension_takes_its_line(known: EhloReply, input: Seq<u8>)
    ensures
        match after_line(input) {
            Some(rest) => {
                &&& read_extension(known, input) matches Some((next, behind))
                &&& behind == rest
            },
            None => read_extension(known, input) is None,
        },
{
    lemma_keyword_in_line(input, seq![]);
    if let Some(word) = scan_keyword(input, seq![]) {
        lemma_parameters_in_line(known, word.value, word.stop, word.rest);
    }
}

/// What stands behind the first line is shorter than what starts with it.
proof fn lemma_hostname_shrinks(input: Seq<u8>, host: Seq<u8>)
    ensures
        read_hostname(input, host) matches Parsed::Done(_, rest) ==> rest.len() < input.len(),
    decreases input.len(),
{
    if input.len() > 0 {
        lemma_hostname_shrinks(input.skip(1), host);
        lemma_hostname_shrinks(input.skip(1), host.push(input[0]));
        lemma_after_line_shrinks(input.skip(1));
    }
}

/// What stands behind a line is shorter than what starts with it.
pub proof fn lemma_line_shrinks(known: EhloReply, input: Seq<u8>, is_first: bool)
    ensures
        read_line(known, input, is_first) matches Parsed::Done(_, rest) ==> rest.len()
            < input.len(),
{
    lemma_hostname_shrinks(input, seq![]);
    law_extension_takes_its_line(known, input);
    lemma_after_line_shrinks(input);
}

/// Reads one line behind its separator: the first tells the name of the server, every other one
/// offers an extension.
pub open spec fn read_line(known: EhloReply, input: Seq<u8>, is_first: bool) -> Parsed<EhloReply> {
    if is_first {
        match read_hostname(input, seq![]) {
            Parsed::Done(host, rest) => Parsed::Done(
                EhloReply { hostname: host, ..known },
                rest,
            ),
            Parsed::Failed(error, rest) => Parsed::Failed(error, rest),
            Parsed::Short => Parsed::Short,
        }
    } else {
        match read_extension(known, input) {
            Some((next, rest)) => Parsed::Done(next, rest),
            None => Parsed::Short,
        }
    }
}

/// Reads the lines of an answer up to its end.
pub open spec fn read_lines(known: EhloReply, input: Seq<u8>, is_first: bool) -> Parsed<EhloReply>
    decreases input.len(),
    via read_lines_decreases
{
    match read_header(input) {
        Parsed::Done(Header::Line { is_last }, text) => match read_line(known, text, is_first) {
            Parsed::Done(next, rest) => if is_last {
                Parsed::Done(next, rest)
            } else {
                read_lines(next, rest, false)
            },
            Parsed::Failed(error, rest) => Parsed::Failed(error, rest),
            Parsed::Short => Parsed::Short,
        },
        Parsed::Done(Header::End, rest) => Parsed::Done(known, rest),
        Parsed::Failed(error, rest) => Parsed::Failed(error, rest),
        Parsed::Short => Parsed::Short,
    }
}

#[via_fn]
proof fn read_lines_decreases(known: EhloReply, input: Seq<u8>, is_first: bool) {
    if let Parsed::Done(Header::Line { is_last }, text) = read_header(input) {
        lemma_line_shrinks(known, text, is_first);
    }
}

/// The parser has come from `start` to where `parsed` tells that reading fails, for the reason that
/// `error` gives.
pub open spec fn has_failed<T>(
    parser: Rfc5321Parser<'_>,
    start: Rfc5321Parser<'_>,
    parsed: Parsed<T>,
    error: Error,
) -> bool {
    match parsed {
        Parsed::Done(_, _) => false,
        Parsed::Failed(reason, rest) => {
            &&& error@ == reason
            &&& parser.follows(start)
            &&& parser.rest() == rest
        },
        Parsed::Short => parser.has_run_out(start, error),
    }
}

impl EhloResponse<String> {
    /// Reads the answer to EHLO. Takes bytes from `bytes` up to the end of the answer, or to the
    /// first byte that is refused; where all of them are taken before that, none are kept, and
    /// the answer has to be handed in again from its start.
    pub fn parse(bytes: &mut Iter<'_, u8>) -> (result: Result<Self, Error>)
        ensures
            ({
                let input = (*old(bytes)).remaining().unref();
                let left = (*final(bytes)).remaining().unref();
                match read_lines(EhloReply::empty(), input, true) {
                    Parsed::Done(told, rest) => {
                        &&& result matches Ok(response)
                        &&& response.stands_for(told)
                        &&& left == rest
                    },
                    Parsed::Failed(reason, rest) => {
                        &&& result matches Err(error)
                        &&& error@ == reason
                        &&& left == rest
                    },
                    Parsed::Short => {
                        &&& result matches Err(error)
                        &&& error@ == (ErrorView::NeedsMoreData { bytes_left: input.len() })
                        &&& left.len() == 0
                    },
                }
            }),
            result matches Ok(response) ==> (response.no_soliciting matches Some(text)
                ==> text@.len() > 0),
    {
        let data = bytes.as_slice();
        let mut parser = Rfc5321Parser::new(data);
        let result = Self::parse_lines(&mut parser);
        advance(bytes, data, parser.position());
        result
    }

    /// Reads the lines of an answer up to its end.
    fn parse_lines(parser: &mut Rfc5321Parser<'_>) -> (result: Result<Self, Error>)
        requires
            old(parser).well_formed(),
        ensures
            final(parser).follows(*old(parser)),
            ({
                let parsed = read_lines(EhloReply::empty(), old(parser).rest(), true);
                match result {
                    Ok(response) => {
                        &&& parsed matches Parsed::Done(told, rest)
                        &&& response.stands_for(told)
                        &&& final(parser).rest() == rest
                    },
                    Err(error) => has_failed(*final(parser), *old(parser), parsed, error),
                }
            }),
    {
        let mut response = EhloResponse::default();
        let mut is_first_line: bool = true;
        let ghost mut known = EhloReply::empty();
        loop
            invariant
                parser.follows(*old(parser)),
                response.stands_for(known),
                read_lines(EhloReply::empty(), old(parser).rest(), true) == read_lines(
                    known,
                    parser.rest(),
                    is_first_line,
                ),
            decreases parser.rest().len(),
        {
            let is_last = match Self::parse_header(parser) {
                Ok(Header::Line { is_last }) => is_last,
                Ok(Header::End) => {
                    return Ok(response);
                },
                Err(error) => {
                    return Err(error);
                },
            };
            let ghost line = parser.rest();
            proof {
                lemma_line_shrinks(known, line, is_first_line);
            }
            if is_first_line {
                match Self::parse_hostname(parser) {
                    Ok(hostname) => {
                        response.hostname = hostname;
                        proof {
                            known = read_line(known, line, true)->Done_0;
                        }
                    },
                    Err(error) => {
                        return Err(error);
                    },
                }
                is_first_line = false;
            } else {
                match response.parse_extension(parser, Ghost(known)) {
                    Ok(()) => {
                        proof {
                            known = read_line(known, line, false)->Done_0;
                        }
                    },
                    Err(error) => {
                        return Err(error);
                    },
                }
            }
            if is_last {
                return Ok(response);
            }
        }
    }

    /// Reads the code and the separator at the start of a line.
    fn parse_header(parser: &mut Rfc5321Parser<'_>) -> (result: Result<Header, Error>)
        requires
            old(parser).well_formed(),
        ensures
            final(parser).follows(*old(parser)),
            match result {
                Ok(header) => read_header(old(parser).rest()) == Parsed::Done(
                    header,
                    final(parser).rest(),
                ),
                Err(error) => has_failed(
                    *final(parser),
                    *old(parser),
                    read_header(old(parser).rest()),
                    error,
                ),
            },
    {
        let ghost input = parser.rest();
        let mut code: [u8; 3] = [0; 3];
        let mut i: usize = 0;
        while i < 3
            invariant
                i <= 3,
                input == old(parser).rest(),
                parser.follows(*old(parser)),
                i <= input.len(),
                parser.rest() == input.skip(i as int),
                forall|j: int| 0 <= j < i ==> is_digit(#[trigger] input[j]),
                forall|j: int| 0 <= j < i ==> #[trigger] code[j] == digit_value(input[j]),
            decreases 3 - i,
        {
            match parser.read_char() {
                Ok(ch) => {
                    assert(parser.rest() =~= input.skip(i + 1));
                    if is_digit(ch) {
                        code[i] = digit_value(ch);
                    } else {
                        return Err(Error::SyntaxError { syntax: "unexpected token" });
                    }
                },
                Err(error) => {
                    return Err(error);
                },
            }
            i = i + 1;
        }
        assert((input.take(3) == bytes_of("250")) == (code[0] == 2 && code[1] == 5 && code[2] == 0))
            by {
            reveal_strlit("250");
            lemma_bytes_of_ascii("250");
            if code[0] == 2 && code[1] == 5 && code[2] == 0 {
                assert(input.take(3) =~= bytes_of("250"));
            } else {
                assert(input.take(3)[0] == input[0] && input.take(3)[1] == input[1]
                    && input.take(3)[2] == input[2]);
            }
        }
        if code[0] != 2 || code[1] != 5 || code[2] != 0 {
            return Err(Error::UnknownCommand);
        }
        match parser.read_char() {
            Ok(ch) => {
                assert(parser.rest() =~= input.skip(4));
                if ch == SP {
                    Ok(Header::Line { is_last: true })
                } else if ch == HYPHEN {
                    Ok(Header::Line { is_last: false })
                } else if ch == LF {
                    Ok(Header::End)
                } else {
                    Err(Error::SyntaxError { syntax: "unexpected token" })
                }
            },
            Err(error) => Err(error),
        }
    }

    /// Reads the first line behind its separator, and gives the name of the server.
    fn parse_hostname(parser: &mut Rfc5321Parser<'_>) -> (result: Result<String, Error>)
        requires
            old(parser).well_formed(),
        ensures
            final(parser).follows(*old(parser)),
            match result {
                Ok(hostname) => {
                    &&& read_hostname(old(parser).rest(), seq![]) matches Parsed::Done(host, rest)
                    &&& is_text(hostname@, host)
                    &&& final(parser).rest() == rest
                },
                Err(error) => has_failed(
                    *final(parser),
                    *old(parser),
                    read_hostname(old(parser).rest(), seq![]),
                    error,
                ),
            },
    {
        let mut buf: Vec<u8> = Vec::with_capacity(16);
        loop
            invariant
                parser.follows(*old(parser)),
                read_hostname(old(parser).rest(), seq![]) == read_hostname(parser.rest(), buf@),
            decreases parser.rest().len(),
        {
            let ch = match parser.read_char() {
                Ok(ch) => ch,
                Err(error) => {
                    return Err(error);
                },
            };
            if ch == LF {
                return Ok(into_string(buf));
            } else if ch == CR {
            } else if ch == SP {
                return match parser.seek_lf() {
                    Ok(()) => Ok(into_string(buf)),
                    Err(error) => Err(error),
                };
            } else if buf.len() < MAX_REPONSE_LENGTH {
                buf.push(ch);
            } else {
                return Err(Error::ResponseTooLong);
            }
        }
    }

    /// Reads a line that offers an extension, behind its separator.
    fn parse_extension(
        &mut self,
        parser: &mut Rfc5321Parser<'_>,
        Ghost(known): Ghost<EhloReply>,
    ) -> (result: Result<(), Error>)
        requires
            old(parser).well_formed(),
            old(self).stands_for(known),
        ensures
            final(parser).follows(*old(parser)),
            match result {
                Ok(()) => {
                    &&& read_extension(known, old(parser).rest()) matches Some((next, rest))
                    &&& final(self).stands_for(next)
                    &&& final(parser).rest() == rest
                },
                Err(error) => {
                    &&& read_extension(known, old(parser).rest()) is None
                    &&& final(parser).has_run_out(*old(parser), error)
                },
            },
    {
        let ghost start = parser.rest();
        let token = match parser.hashed_value_long() {
            Ok(token) => token,
            Err(error) => {
                return Err(error);
            },
        };
        let ghost word = scan_keyword(start, seq![])->0.value;
        match self.parse_parameters(token, parser, Ghost(word), Ghost(known)) {
            Ok(()) => parser.seek_lf(),
            Err(error) => Err(error),
        }
    }

    /// Reads what stands behind the keyword with the token `token`.
    fn parse_parameters(
        &mut self,
        token: u128,
        parser: &mut Rfc5321Parser<'_>,
        Ghost(word): Ghost<Seq<u8>>,
        Ghost(known): Ghost<EhloReply>,
    ) -> (result: Result<(), Error>)
        requires
            old(parser).well_formed(),
            old(self).stands_for(known),
            is_word(word),
            token == packed(word),
        ensures
            final(parser).follows(*old(parser)),
            match read_parameters(known, word, old(parser).stop_char, old(parser).rest()) {
                Some(told) => {
                    &&& result is Ok
                    &&& final(self).stands_for(told.value)
                    &&& final(parser).has_read(*old(parser), told)
                },
                None => {
                    &&& result matches Err(error)
                    &&& final(parser).has_run_out(*old(parser), error)
                },
            },
    {
        proof {
            lemma_tokens(word);
        }
        let mut bit: u32 = find_extension(token, Ghost(word));
        if token == tokens::AUTH {
            match Self::parse_mechanisms(parser, self.auth_mechanisms) {
                Ok(mechanisms) => {
                    self.auth_mechanisms = mechanisms;
                },
                Err(error) => {
                    return Err(error);
                },
            }
        } else if token == tokens::DELIVERBY {
            match Self::parse_number(parser) {
                Ok(seconds) => {
                    self.deliver_by = seconds as u64;
                },
                Err(error) => {
                    return Err(error);
                },
            }
        } else if token == tokens::ENHANCEDSTATUSCO {
            match Self::parse_des(parser) {
                Ok(fits) => {
                    bit = if fits {
                        EXT_ENHANCED_STATUS_CODES
                    } else {
                        0
                    };
                },
                Err(error) => {
                    return Err(error);
                },
            }
        } else if token == tokens::FUTURERELEASE {
            let max_interval = match Self::parse_number(parser) {
                Ok(number) => number,
                Err(error) => {
                    return Err(error);
                },
            };
            let max_datetime = match Self::parse_number(parser) {
                Ok(number) => number,
                Err(error) => {
                    return Err(error);
                },
            };
            self.future_release_interval = max_interval as u64;
            self.future_release_datetime = max_datetime as u64;
        } else if token == tokens::MT_PRIORITY {
            match Self::parse_priority(parser) {
                Ok(priority) => {
                    self.mt_priority = priority;
                },
                Err(error) => {
                    return Err(error);
                },
            }
        } else if token == tokens::NO_SOLICITING {
            match Self::parse_text(parser) {
                Ok(text) => {
                    self.no_soliciting = text;
                },
                Err(error) => {
                    return Err(error);
                },
            }
        } else if token == tokens::SIZE {
            match Self::parse_number(parser) {
                Ok(size) => {
                    self.size = size;
                },
                Err(error) => {
                    return Err(error);
                },
            }
        }
        self.capabilities = self.capabilities | bit;
        Ok(())
    }

    /// Reads the mechanisms up to the end of the line, and adds their bits to `bits`.
    fn parse_mechanisms(parser: &mut Rfc5321Parser<'_>, bits: u64) -> (result: Result<u64, Error>)
        requires
            old(parser).well_formed(),
        ensures
            final(parser).follows(*old(parser)),
            match read_mechanisms(old(parser).stop_char, old(parser).rest(), bits) {
                Some(scanned) => {
                    &&& result == Ok::<u64, Error>(scanned.value)
                    &&& final(parser).has_read(*old(parser), scanned)
                },
                None => {
                    &&& result matches Err(error)
                    &&& final(parser).has_run_out(*old(parser), error)
                },
            },
    {
        let mut mechanisms: u64 = bits;
        while parser.stop_char != LF
            invariant
                parser.follows(*old(parser)),
                read_mechanisms(old(parser).stop_char, old(parser).rest(), bits)
                    == read_mechanisms(parser.stop_char, parser.rest(), mechanisms),
            decreases parser.rest().len(),
        {
            proof {
                lemma_text_in_line(parser.rest(), seq![]);
            }
            match parser.mechanism() {
                Ok(Some(mechanism)) => {
                    mechanisms = mechanisms | mechanism;
                },
                Ok(None) => {},
                Err(error) => {
                    return Err(error);
                },
            }
        }
        Ok(mechanisms)
    }

    /// Reads the number behind a keyword.
    fn parse_number(parser: &mut Rfc5321Parser<'_>) -> (result: Result<usize, Error>)
        requires
            old(parser).well_formed(),
        ensures
            final(parser).follows(*old(parser)),
            match read_number(old(parser).stop_char, old(parser).rest()) {
                Some(scanned) => {
                    &&& result == Ok::<usize, Error>(scanned.value)
                    &&& final(parser).has_read(*old(parser), scanned)
                },
                None => {
                    &&& result matches Err(error)
                    &&& final(parser).has_run_out(*old(parser), error)
                },
            },
    {
        if parser.stop_char == LF {
            return Ok(0);
        }
        match parser.size() {
            Ok(number) => if number != usize::MAX {
                Ok(number)
            } else {
                Ok(0)
            },
            Err(error) => Err(error),
        }
    }

    /// Reads the priority assignment policy behind a keyword.
    fn parse_priority(parser: &mut Rfc5321Parser<'_>) -> (result: Result<MtPriority, Error>)
        requires
            old(parser).well_formed(),
        ensures
            final(parser).follows(*old(parser)),
            match read_priority(old(parser).stop_char, old(parser).rest()) {
                Some(scanned) => {
                    &&& result == Ok::<MtPriority, Error>(scanned.value)
                    &&& final(parser).has_read(*old(parser), scanned)
                },
                None => {
                    &&& result matches Err(error)
                    &&& final(parser).has_run_out(*old(parser), error)
                },
            },
    {
        if parser.stop_char == LF {
            return Ok(MtPriority::Mixer);
        }
        let ghost start = parser.rest();
        match parser.hashed_value_long() {
            Ok(token) => {
                proof {
                    lemma_tokens(scan_keyword(start, seq![])->0.value);
                }
                if token == tokens::STANAG4406 {
                    Ok(MtPriority::Stanag4406)
                } else if token == tokens::NSEP {
                    Ok(MtPriority::Nsep)
                } else {
                    Ok(MtPriority::Mixer)
                }
            },
            Err(error) => Err(error),
        }
    }

    /// Reads the text behind a keyword, where there is one.
    fn parse_text(parser: &mut Rfc5321Parser<'_>) -> (result: Result<Option<String>, Error>)
        requires
            old(parser).well_formed(),
        ensures
            final(parser).follows(*old(parser)),
            match read_text(old(parser).stop_char, old(parser).rest()) {
                Some(scanned) => {
                    &&& result matches Ok(text)
                    &&& is_optional_text(text, scanned.value)
                    &&& final(parser).has_read(*old(parser), scanned)
                },
                None => {
                    &&& result matches Err(error)
                    &&& final(parser).has_run_out(*old(parser), error)
                },
            },
    {
        if parser.stop_char == LF {
            return Ok(None);
        }
        match parser.text() {
            Ok(text) => if text.is_empty() {
                Ok(None)
            } else {
                Ok(Some(into_string(text)))
            },
            Err(error) => Err(error),
        }
    }

    /// Reads the end of ENHANCEDSTATUSCODES, of which the first 16 letters have been read.
    fn parse_des(parser: &mut Rfc5321Parser<'_>) -> (result: Result<bool, Error>)
        requires
            old(parser).well_formed(),
        ensures
            final(parser).follows(*old(parser)),
            match read_des(old(parser).stop_char, old(parser).rest()) {
                Some(scanned) => {
                    &&& result == Ok::<bool, Error>(scanned.value)
                    &&& final(parser).has_read(*old(parser), scanned)
                },
                None => {
                    &&& result matches Err(error)
                    &&& final(parser).has_run_out(*old(parser), error)
                },
            },
    {
        if to_upper(parser.stop_char) != LETTER_D {
            return Ok(false);
        }
        match parser.read_char() {
            Ok(ch) => if to_upper(ch) != LETTER_E {
                return Ok(false);
            },
            Err(error) => {
                return Err(error);
            },
        }
        match parser.read_char() {
            Ok(ch) => {
                assert(old(parser).rest().skip(1).skip(1) =~= old(parser).rest().skip(2));
                Ok(to_upper(ch) == LETTER_S)
            },
            Err(error) => Err(error),
        }
    }
}

} // verus!
