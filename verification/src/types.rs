//! Replies, what a server offers, and the reasons for which a reply is refused.

use crate::text::{is_text, law_ascii_text};
use vstd::prelude::*;

verus! {

/// Why a reply could not be read.
#[derive(Debug, Clone, PartialEq, Eq)]
pub enum Error {
    /// The input ended inside a reply. `bytes_left` tells how many bytes have to be handed in
    /// again, in front of those that arrive later.
    NeedsMoreData { bytes_left: usize },
    /// The server answered the greeting with a code other than 250.
    UnknownCommand,
    /// A byte stands where the grammar does not allow it.
    SyntaxError { syntax: &'static str },
    /// The text of the reply is longer than a reply may be.
    ResponseTooLong,
}

/// An [`Error`] with its string taken as a sequence of characters.
pub enum ErrorView {
    NeedsMoreData { bytes_left: nat },
    UnknownCommand,
    SyntaxError { syntax: Seq<char> },
    ResponseTooLong,
}

impl View for Error {
    type V = ErrorView;

    open spec fn view(&self) -> ErrorView {
        match *self {
            Error::NeedsMoreData { bytes_left } => ErrorView::NeedsMoreData {
                bytes_left: bytes_left as nat,
            },
            Error::UnknownCommand => ErrorView::UnknownCommand,
            Error::SyntaxError { syntax } => ErrorView::SyntaxError { syntax: syntax@ },
            Error::ResponseTooLong => ErrorView::ResponseTooLong,
        }
    }
}

/// A reply: its three-digit code, its enhanced status code (all zero where it has none) and its
/// text.
#[derive(Debug, Clone, PartialEq, Eq)]
pub struct Response<T> {
    pub code: [u8; 3],
    pub esc: [u8; 3],
    pub message: T,
}

/// A reply whose text is still the bytes that were received.
#[verifier::ext_equal]
pub struct Reply {
    pub code: Seq<u8>,
    pub esc: Seq<u8>,
    pub message: Seq<u8>,
}

impl Response<String> {
    /// This is the response that `reply` stands for.
    pub open spec fn stands_for(self, reply: Reply) -> bool {
        &&& self.code@ == reply.code
        &&& self.esc@ == reply.esc
        &&& is_text(self.message@, reply.message)
    }
}

/// The priority assignment policies of the MT-PRIORITY extension.
#[derive(Debug, Clone, Copy, PartialEq, Eq)]
pub enum MtPriority {
    Mixer,
    Stanag4406,
    Nsep,
}

impl Default for MtPriority {
    fn default() -> (priority: Self)
        ensures
            priority == MtPriority::Mixer,
    {
        MtPriority::Mixer
    }
}

/// What a server tells of itself in answer to EHLO.
#[derive(Debug, Clone, PartialEq, Eq)]
pub struct EhloResponse<T> {
    pub hostname: T,
    /// The extensions on offer, one bit each.
    pub capabilities: u32,
    /// The SASL mechanisms on offer, one bit each.
    pub auth_mechanisms: u64,
    /// The shortest time for delivery, in seconds; 0 where none is given.
    pub deliver_by: u64,
    /// How long a message may be held, in seconds; 0 where that is not given.
    pub future_release_interval: u64,
    /// Until when a message may be held; 0 where that is not given.
    pub future_release_datetime: u64,
    pub mt_priority: MtPriority,
    /// The keyword of solicitations that are not wanted.
    pub no_soliciting: Option<String>,
    /// The largest message that is taken, in bytes; 0 where that is not given.
    pub size: usize,
}

/// An answer to EHLO whose texts are still the bytes that were received.
#[verifier::ext_equal]
pub struct EhloReply {
    pub hostname: Seq<u8>,
    pub capabilities: u32,
    pub auth_mechanisms: u64,
    pub deliver_by: u64,
    pub future_release_interval: u64,
    pub future_release_datetime: u64,
    pub mt_priority: MtPriority,
    pub no_soliciting: Option<Seq<u8>>,
    pub size: usize,
}

impl EhloReply {
    /// The answer of a server that tells nothing of itself.
    pub open spec fn empty() -> EhloReply {
        EhloReply {
            hostname: seq![],
            capabilities: 0,
            auth_mechanisms: 0,
            deliver_by: 0,
            future_release_interval: 0,
            future_release_datetime: 0,
            mt_priority: MtPriority::Mixer,
            no_soliciting: None,
            size: 0,
        }
    }
}

impl EhloResponse<String> {
    /// This is the response that `told` stands for.
    pub open spec fn stands_for(self, told: EhloReply) -> bool {
        &&& is_text(self.hostname@, told.hostname)
        &&& self.capabilities == told.capabilities
        &&& self.auth_mechanisms == told.auth_mechanisms
        &&& self.deliver_by == told.deliver_by
        &&& self.future_release_interval == told.future_release_interval
        &&& self.future_release_datetime == told.future_release_datetime
        &&& self.mt_priority == told.mt_priority
        &&& is_optional_text(self.no_soliciting, told.no_soliciting)
        &&& self.size == told.size
    }
}

/// The text is what the bytes stand for, and is not empty, where there are any.
pub open spec fn is_optional_text(text: Option<String>, bytes: Option<Seq<u8>>) -> bool {
    match (text, bytes) {
        (Some(text), Some(bytes)) => is_text(text@, bytes) && text@.len() > 0,
        (None, None) => true,
        _ => false,
    }
}

impl Default for EhloResponse<String> {
    fn default() -> (response: Self)
        ensures
            response.stands_for(EhloReply::empty()),
    {
        proof {
            law_ascii_text(seq![]);
        }
        EhloResponse {
            hostname: String::new(),
            capabilities: 0,
            auth_mechanisms: 0,
            deliver_by: 0,
            future_release_interval: 0,
            future_release_datetime: 0,
            mt_priority: MtPriority::default(),
            no_soliciting: None,
            size: 0,
        }
    }
}

} // verus!
