//! A receiver that takes the bytes of replies in pieces of any size.

use crate::ascii::{digit_value, is_digit, is_whitespace, CR, DOT, HYPHEN, LF, SP};
use crate::text::{advance, into_string};
use crate::types::{Error, ErrorView, Reply, Response};
use core::slice::Iter;
use vstd::prelude::*;
use vstd::std_specs::iter::IteratorSpec;

verus! {

/// How many bytes of text a reply may hold.
pub const MAX_REPONSE_LENGTH: usize = 4096;

/// Reads replies byte by byte, and keeps what it has seen of one that is not complete.
pub struct ResponseReceiver {
    buf: Vec<u8>,
    code: [u8; 6],
    is_last: bool,
    pos: usize,
}

/// The state of a receiver.
#[verifier::ext_equal]
pub struct ReceiverView {
    /// The text of the lines so far.
    pub buf: Seq<u8>,
    /// The three digits of the code and the three numbers of the enhanced status code.
    pub code: Seq<u8>,
    /// The line being read is the last one of its reply.
    pub is_last: bool,
    /// The field being read: 0 to 2 a digit of the code, 3 the separator, 4 to 6 a number of the
    /// enhanced status code, 7 the text.
    pub pos: nat,
}

impl View for ResponseReceiver {
    type V = ReceiverView;

    closed spec fn view(&self) -> ReceiverView {
        ReceiverView {
            buf: self.buf@,
            code: self.code@,
            is_last: self.is_last,
            pos: self.pos as nat,
        }
    }
}

impl ReceiverView {
    /// A receiver that waits for the first byte of a reply.
    pub open spec fn fresh() -> ReceiverView {
        ReceiverView { buf: seq![], code: seq![0, 0, 0, 0, 0, 0], is_last: false, pos: 0 }
    }

    /// What holds of every receiver.
    pub open spec fn well_formed(self) -> bool {
        self.code.len() == 6 && self.pos <= 7
    }

    /// The reply that ends here.
    pub open spec fn reply(self) -> Reply {
        Reply {
            code: self.code.subrange(0, 3),
            esc: self.code.subrange(3, 6),
            message: self.buf,
        }
    }
}

/// The number `number` with the decimal digit `digit` written behind it, at most 255.
pub open spec fn with_digit(number: u8, digit: u8) -> u8 {
    let value = number * 10 + digit_value(digit);
    if value <= u8::MAX {
        value as u8
    } else {
        u8::MAX
    }
}

/// What a byte does in the field where it stands. The digits of the codes count on the first line
/// of a reply only: from there on the text is not empty.
pub open spec fn read_field(state: ReceiverView, byte: u8) -> Result<ReceiverView, ErrorView> {
    if state.pos <= 2 {
        if is_digit(byte) {
            Ok(
                ReceiverView {
                    code: if state.buf.len() == 0 {
                        state.code.update(state.pos as int, digit_value(byte))
                    } else {
                        state.code
                    },
                    pos: state.pos + 1,
                    ..state
                },
            )
        } else {
            Err(ErrorView::SyntaxError { syntax: "Invalid response code"@ })
        }
    } else if state.pos == 3 {
        if byte == SP {
            Ok(ReceiverView { is_last: true, pos: 4, ..state })
        } else if byte == HYPHEN {
            Ok(ReceiverView { pos: 4, ..state })
        } else if byte == CR {
            Ok(state)
        } else if byte == LF {
            Ok(ReceiverView { is_last: true, ..state })
        } else {
            Err(ErrorView::SyntaxError { syntax: "Invalid response separator"@ })
        }
    } else if state.pos <= 6 {
        let field = state.pos - 1;
        if is_digit(byte) {
            Ok(
                ReceiverView {
                    code: if state.buf.len() == 0 {
                        state.code.update(field, with_digit(state.code[field], byte))
                    } else {
                        state.code
                    },
                    ..state
                },
            )
        } else if byte == DOT && state.pos < 6 && state.code[field] > 0 {
            Ok(ReceiverView { pos: state.pos + 1, ..state })
        } else {
            Ok(
                ReceiverView {
                    buf: if is_whitespace(byte) {
                        state.buf
                    } else {
                        state.buf.push(byte)
                    },
                    pos: 7,
                    ..state
                },
            )
        }
    } else if byte == CR || byte == LF {
        Ok(state)
    } else if state.buf.len() < MAX_REPONSE_LENGTH {
        Ok(ReceiverView { buf: state.buf.push(byte), ..state })
    } else {
        Err(ErrorView::ResponseTooLong)
    }
}

/// What one byte leads to.
pub enum Step {
    /// The reply goes on.
    More(ReceiverView),
    /// The byte ends a reply.
    Complete(Reply, ReceiverView),
    /// The byte is refused, and the receiver stays as it was.
    Refused(ErrorView),
}

/// Hands one byte to a receiver. A line feed ends the reply on the last line, and starts the next
/// line, with a line feed in the text, on every other.
pub open spec fn feed(state: ReceiverView, byte: u8) -> Step {
    match read_field(state, byte) {
        Err(error) => Step::Refused(error),
        Ok(next) => if byte != LF {
            Step::More(next)
        } else if next.is_last {
            Step::Complete(next.reply(), ReceiverView { buf: seq![], ..next })
        } else {
            Step::More(ReceiverView { buf: next.buf.push(LF), pos: 0, ..next })
        },
    }
}

/// What comes of handing some bytes to a receiver.
#[verifier::ext_equal]
pub struct Received {
    pub outcome: Result<Reply, ErrorView>,
    /// The receiver afterwards.
    pub state: ReceiverView,
    /// How many of the bytes were taken.
    pub taken: nat,
}

/// Hands `bytes` to a receiver, up to the end of a reply or to a byte that is refused.
pub open spec fn receive(state: ReceiverView, bytes: Seq<u8>) -> Received
    decreases bytes.len(),
{
    if bytes.len() == 0 {
        Received { outcome: Err(ErrorView::NeedsMoreData { bytes_left: 0 }), state, taken: 0 }
    } else {
        match feed(state, bytes[0]) {
            Step::More(next) => {
                let rest = receive(next, bytes.skip(1));
                Received { taken: rest.taken + 1, ..rest }
            },
            Step::Complete(reply, next) => Received { outcome: Ok(reply), state: next, taken: 1 },
            Step::Refused(error) => Received { outcome: Err(error), state, taken: 1 },
        }
    }
}

/// The result `result` is the outcome `outcome`.
pub open spec fn is_outcome(
    result: Result<Response<String>, Error>,
    outcome: Result<Reply, ErrorView>,
) -> bool {
    match (result, outcome) {
        (Ok(response), Ok(reply)) => response.stands_for(reply),
        (Err(error), Err(reason)) => error@ == reason,
        _ => false,
    }
}

/// Writes a decimal digit behind a number, up to 255.
fn push_digit(number: u8, digit: u8) -> (result: u8)
    requires
        is_digit(digit),
    ensures
        result == with_digit(number, digit),
{
    let value: u16 = number as u16 * 10 + digit_value(digit) as u16;
    if value <= u8::MAX as u16 {
        value as u8
    } else {
        u8::MAX
    }
}

impl Default for ResponseReceiver {
    /// A receiver that waits for the first byte of a reply.
    fn default() -> (receiver: Self)
        ensures
            receiver@ == ReceiverView::fresh(),
    {
        let receiver = ResponseReceiver { buf: Vec::new(), code: [0; 6], is_last: false, pos: 0 };
        assert(receiver@ =~= ReceiverView::fresh());
        receiver
    }
}

impl ResponseReceiver {
    /// A receiver that has the code of a reply already, and waits for the separator behind it.
    pub fn from_code(code: [u8; 3]) -> (receiver: Self)
        ensures
            receiver@ == (ReceiverView {
                code: code@ + seq![0, 0, 0],
                pos: 3,
                ..ReceiverView::fresh()
            }),
    {
        let receiver = ResponseReceiver {
            code: [code[0], code[1], code[2], 0, 0, 0],
            pos: 3,
            is_last: false,
            buf: Vec::new(),
        };
        assert(receiver@.code =~= code@ + seq![0, 0, 0]);
        receiver
    }

    /// Reads on where the last call stopped. Takes bytes from `bytes` up to the end of a reply,
    /// or to the first byte that is refused; where all of them are taken before that, more are
    /// needed, and the receiver keeps what it has.
    pub fn parse(&mut self, bytes: &mut Iter<'_, u8>) -> (result: Result<Response<String>, Error>)
        ensures
            ({
                let input = (*old(bytes)).remaining().unref();
                let received = receive(old(self)@, input);
                &&& is_outcome(result, received.outcome)
                &&& final(self)@ == received.state
                &&& (*final(bytes)).remaining().unref() == input.skip(received.taken as int)
            }),
    {
        let data = bytes.as_slice();
        let (taken, result) = self.parse_slice(data);
        advance(bytes, data, taken);
        result
    }

    /// Reads on from `data`. Gives the number of bytes that were taken along with the result.
    fn parse_slice(&mut self, data: &[u8]) -> (taken_and_result: (
        usize,
        Result<Response<String>, Error>,
    ))
        ensures
            taken_and_result.0 <= data@.len(),
            ({
                let received = receive(old(self)@, data@);
                &&& taken_and_result.0 == received.taken
                &&& is_outcome(taken_and_result.1, received.outcome)
                &&& final(self)@ == received.state
            }),
    {
        let mut i: usize = 0;
        assert(data@.skip(0) =~= data@);
        while i < data.len()
            invariant
                i <= data@.len(),
                ({
                    let rest = receive(self@, data@.skip(i as int));
                    receive(old(self)@, data@) == (Received {
                        taken: rest.taken + i as nat,
                        ..rest
                    })
                }),
            decreases data.len() - i,
        {
            let ch = data[i];
            assert(data@.skip(i as int)[0] == ch);
            assert(data@.skip(i as int).skip(1) =~= data@.skip(i + 1));
            i = i + 1;
            match self.read_field(ch) {
                Err(error) => {
                    return (i, Err(error));
                },
                Ok(()) => {},
            }
            if ch == LF {
                if self.is_last {
                    let response = self.take_response();
                    return (i, Ok(response));
                } else {
                    self.buf.push(LF);
                    self.pos = 0;
                }
            }
        }
        (i, Err(Error::NeedsMoreData { bytes_left: 0 }))
    }

    /// Reads one byte in the field where it stands.
    fn read_field(&mut self, ch: u8) -> (result: Result<(), Error>)
        ensures
            match read_field(old(self)@, ch) {
                Ok(next) => result is Ok && final(self)@ == next,
                Err(reason) => {
                    &&& result matches Err(error)
                    &&& error@ == reason
                    &&& final(self)@ == old(self)@
                },
            },
    {
        if self.pos <= 2 {
            if !is_digit(ch) {
                return Err(Error::SyntaxError { syntax: "Invalid response code" });
            }
            if self.buf.is_empty() {
                self.code[self.pos] = digit_value(ch);
            }
            self.pos = self.pos + 1;
        } else if self.pos == 3 {
            if ch == SP {
                self.is_last = true;
                self.pos = 4;
            } else if ch == HYPHEN {
                self.pos = 4;
            } else if ch == LF {
                self.is_last = true;
            } else if ch != CR {
                return Err(Error::SyntaxError { syntax: "Invalid response separator" });
            }
        } else if self.pos <= 6 {
            let field: usize = self.pos - 1;
            if is_digit(ch) {
                if self.buf.is_empty() {
                    self.code[field] = push_digit(self.code[field], ch);
                }
            } else if ch == DOT && self.pos < 6 && self.code[field] > 0 {
                self.pos = self.pos + 1;
            } else {
                if !is_whitespace(ch) {
                    self.buf.push(ch);
                }
                self.pos = 7;
            }
        } else if ch != CR && ch != LF {
            if self.buf.len() < MAX_REPONSE_LENGTH {
                self.buf.push(ch);
            } else {
                return Err(Error::ResponseTooLong);
            }
        }
        Ok(())
    }

    /// Takes the reply that ends here out of the receiver.
    fn take_response(&mut self) -> (response: Response<String>)
        ensures
            response.stands_for(old(self)@.reply()),
            final(self)@ == (ReceiverView { buf: seq![], ..old(self)@ }),
    {
        let mut buf: Vec<u8> = Vec::new();
        core::mem::swap(&mut buf, &mut self.buf);
        let response = Response {
            code: [self.code[0], self.code[1], self.code[2]],
            esc: [self.code[3], self.code[4], self.code[5]],
            message: into_string(buf),
        };
        assert(response.code@ =~= old(self)@.reply().code);
        assert(response.esc@ =~= old(self)@.reply().esc);
        response
    }

    /// Starts over, with the first byte of a reply. Text that was received stays.
    pub fn reset(&mut self)
        ensures
            final(self)@ == (ReceiverView { buf: old(self)@.buf, ..ReceiverView::fresh() }),
    {
        self.is_last = false;
        self.code = [0; 6];
        self.pos = 0;
        assert(self.code@ =~= ReceiverView::fresh().code);
    }
}

} // verus!
