//! What each line of an answer to EHLO tells of the server, told from the bytes of the line.

use crate::ascii::{CR, LF, SP};
use crate::ehlo::{
    law_extension_takes_its_line, read_mechanisms, read_number, read_parameters,
};
use crate::ehlo_laws::{has_mechanism, is_one_line, lemma_line_end, told};
use crate::name_laws::{is_extension_keyword, law_extension_keywords, lemma_keywords_spelled};
use crate::notation::{
    decimal, is_decimal, is_letter, is_word_byte, spells, without_returns,
};
use crate::offers::{
    mechanism_bit, uppercase, EXT_8BIT_MIME, EXT_ATRN, EXT_AUTH, EXT_BINARY_MIME, EXT_BURL,
    EXT_CHECKPOINT, EXT_CHUNKING, EXT_CONNEG, EXT_CONPERM, EXT_DELIVER_BY, EXT_DSN,
    EXT_ENHANCED_STATUS_CODES, EXT_ETRN, EXT_EXPN, EXT_FUTURE_RELEASE, EXT_HELP, EXT_MTRK,
    EXT_MT_PRIORITY, EXT_NO_SOLICITING, EXT_ONEX, EXT_PIPELINING, EXT_REQUIRE_TLS, EXT_RRVS,
    EXT_SIZE, EXT_SMTP_UTF8, EXT_START_TLS, EXT_VERB,
};
use crate::reader::{lemma_text_in_line, scan_keyword, scan_text, Scanned};
use crate::scan_laws::{
    agree_but_returns, are_spaces, is_plain_text, is_plain_word, law_keyword_passes_over_returns,
    law_number_passes_over_returns, law_scans_number, law_scans_text, law_scans_word,
    law_size_of_number, law_text_passes_over_returns,
};
use crate::text::bytes_of;
use crate::tokens::lemma_tokens;
use crate::types::{EhloReply, MtPriority};
use vstd::prelude::*;

verus! {

/// The parts of a line that offers an extension, given without its separator and its end: spaces, a
/// word, and what stands behind it. The word ends where another byte stands, or at the longest
/// length of a keyword.
pub open spec fn are_parts(spaces: Seq<u8>, word: Seq<u8>, tail: Seq<u8>) -> bool {
    &&& are_spaces(spaces)
    &&& is_plain_word(word)
    &&& is_one_line(tail)
    &&& tail.len() > 0 ==> {
        &&& tail[0] != CR
        &&& word.len() < 16 ==> !is_word_byte(tail[0])
        &&& word.len() == 0 ==> tail[0] != SP
    }
}

/// The byte at which a word with `tail` behind it stops.
spec fn stop_of(tail: Seq<u8>) -> u8 {
    if tail.len() == 0 {
        LF
    } else {
        tail[0]
    }
}

/// What is left of the line behind that byte.
spec fn left_of(tail: Seq<u8>) -> Seq<u8> {
    if tail.len() == 0 {
        seq![]
    } else {
        tail.skip(1) + seq![LF]
    }
}

proof fn lemma_tail(tail: Seq<u8>)
    ensures
        tail + seq![LF] == seq![stop_of(tail)] + left_of(tail),
{
    assert(tail + seq![LF] =~= seq![stop_of(tail)] + left_of(tail));
}

/// What a line tells is what its word and the bytes behind it tell.
proof fn lemma_told_by_parts(known: EhloReply, spaces: Seq<u8>, word: Seq<u8>, tail: Seq<u8>)
    requires
        are_parts(spaces, word, tail),
    ensures
        read_parameters(known, uppercase(word), stop_of(tail), left_of(tail)) matches Some(scanned)
            && told(known, spaces + word + tail) == scanned.value,
{
    let line = spaces + word + tail;
    let (stop, rest) = (stop_of(tail), left_of(tail));
    lemma_tail(tail);
    assert(line + seq![LF] =~= spaces + word + seq![stop] + rest);
    law_scans_word(spaces, word, stop, rest);
    assert forall|i: int| 0 <= i < line.len() implies #[trigger] line[i] != LF by {
        if i < spaces.len() {
            assert(line[i] == spaces[i]);
        } else if i < spaces.len() + word.len() {
            assert(line[i] == word[i - spaces.len()]);
            assert(is_word_byte(word[i - spaces.len()]));
        } else {
            assert(line[i] == tail[i - spaces.len() - word.len()]);
        }
    }
    lemma_line_end(line);
    law_extension_takes_its_line(known, line + seq![LF]);
}

/// What is known of the server, with one more extension on offer.
pub open spec fn with_extension(known: EhloReply, bit: u32) -> EhloReply {
    EhloReply { capabilities: known.capabilities | bit, ..known }
}

/// Each keyword, in letters of any case, adds the bit of its extension. Where the extension has no
/// parameters that count, nothing else changes, whatever follows the keyword. A line with another
/// word tells nothing.
pub proof fn law_keywords_add_their_extensions(
    known: EhloReply,
    spaces: Seq<u8>,
    word: Seq<u8>,
    tail: Seq<u8>,
)
    requires
        are_parts(spaces, word, tail),
    ensures
        ({
            let next = told(known, spaces + word + tail);
            &&& spells(word, "8BITMIME") ==> next == with_extension(known, EXT_8BIT_MIME)
            &&& spells(word, "ATRN") ==> next == with_extension(known, EXT_ATRN)
            &&& spells(word, "BINARYMIME") ==> next == with_extension(known, EXT_BINARY_MIME)
            &&& spells(word, "BURL") ==> next == with_extension(known, EXT_BURL)
            &&& spells(word, "CHECKPOINT") ==> next == with_extension(known, EXT_CHECKPOINT)
            &&& spells(word, "CHUNKING") ==> next == with_extension(known, EXT_CHUNKING)
            &&& spells(word, "CONNEG") ==> next == with_extension(known, EXT_CONNEG)
            &&& spells(word, "CONPERM") ==> next == with_extension(known, EXT_CONPERM)
            &&& spells(word, "DSN") ==> next == with_extension(known, EXT_DSN)
            &&& spells(word, "ETRN") ==> next == with_extension(known, EXT_ETRN)
            &&& spells(word, "EXPN") ==> next == with_extension(known, EXT_EXPN)
            &&& spells(word, "HELP") ==> next == with_extension(known, EXT_HELP)
            &&& spells(word, "MTRK") ==> next == with_extension(known, EXT_MTRK)
            &&& spells(word, "ONEX") ==> next == with_extension(known, EXT_ONEX)
            &&& spells(word, "PIPELINING") ==> next == with_extension(known, EXT_PIPELINING)
            &&& spells(word, "REQUIRETLS") ==> next == with_extension(known, EXT_REQUIRE_TLS)
            &&& spells(word, "RRVS") ==> next == with_extension(known, EXT_RRVS)
            &&& spells(word, "SMTPUTF8") ==> next == with_extension(known, EXT_SMTP_UTF8)
            &&& spells(word, "STARTTLS") ==> next == with_extension(known, EXT_START_TLS)
            &&& spells(word, "VERB") ==> next == with_extension(known, EXT_VERB)
            &&& spells(word, "AUTH") ==> next.capabilities == known.capabilities
                | EXT_AUTH
            &&& spells(word, "DELIVERBY") ==> next.capabilities == known.capabilities
                | EXT_DELIVER_BY
            &&& spells(word, "FUTURERELEASE") ==> next.capabilities == known.capabilities
                | EXT_FUTURE_RELEASE
            &&& spells(word, "MT-PRIORITY") ==> next.capabilities == known.capabilities
                | EXT_MT_PRIORITY
            &&& spells(word, "NO-SOLICITING") ==> next.capabilities == known.capabilities
                | EXT_NO_SOLICITING
            &&& spells(word, "SIZE") ==> next.capabilities == known.capabilities
                | EXT_SIZE
            &&& !is_extension_keyword(word) ==> next == known
        }),
{
    lemma_told_by_parts(known, spaces, word, tail);
    lemma_keywords_spelled(word);
    lemma_tokens(uppercase(word));
    law_extension_keywords(word);
    let before = known.capabilities;
    assert(before | 0 == before) by (bit_vector);
    assert(with_extension(known, 0) =~= known);
}

/// ENHANCEDSTATUSCODES is offered by its letters, of any case, whatever follows them. A line that
/// has the first 16 of them, but not all, tells nothing.
pub proof fn law_enhanced_status_codes(
    known: EhloReply,
    spaces: Seq<u8>,
    word: Seq<u8>,
    tail: Seq<u8>,
)
    requires
        are_parts(spaces, word, tail),
        spells(word, "ENHANCEDSTATUSCO"),
    ensures
        ({
            let next = told(known, spaces + word + tail);
            if tail.len() >= 3 && spells(tail.take(3), "DES") {
                next == with_extension(known, EXT_ENHANCED_STATUS_CODES)
            } else {
                next == known
            }
        }),
{
    lemma_told_by_parts(known, spaces, word, tail);
    lemma_keywords_spelled(word);
    lemma_tokens(uppercase(word));
    reveal_strlit("DES");
    let before = known.capabilities;
    assert(before | 0 == before) by (bit_vector);
    assert(with_extension(known, 0) =~= known);
    let left = left_of(tail);
    if tail.len() >= 3 {
        let letters = tail.take(3);
        assert(letters[0] == tail[0] && letters[1] == tail[1] && letters[2] == tail[2]);
        assert(left[0] == tail[1] && left[1] == tail[2]);
        if spells(letters, "DES") {
            assert(is_letter(letters[0], "DES"@[0]));
            assert(is_letter(letters[1], "DES"@[1]));
            assert(is_letter(letters[2], "DES"@[2]));
        }
    }
}

/// A line changes only what its own keyword tells, and never the name of the server.
pub proof fn law_line_changes_its_own_field(
    known: EhloReply,
    spaces: Seq<u8>,
    word: Seq<u8>,
    tail: Seq<u8>,
)
    requires
        are_parts(spaces, word, tail),
    ensures
        ({
            let next = told(known, spaces + word + tail);
            &&& next.hostname == known.hostname
            &&& !spells(word, "AUTH") ==> next.auth_mechanisms == known.auth_mechanisms
            &&& !spells(word, "DELIVERBY") ==> next.deliver_by == known.deliver_by
            &&& !spells(word, "FUTURERELEASE") ==> next.future_release_interval
                == known.future_release_interval
            &&& !spells(word, "FUTURERELEASE") ==> next.future_release_datetime
                == known.future_release_datetime
            &&& !spells(word, "MT-PRIORITY") ==> next.mt_priority == known.mt_priority
            &&& !spells(word, "NO-SOLICITING") ==> next.no_soliciting == known.no_soliciting
            &&& !spells(word, "SIZE") ==> next.size == known.size
        }),
{
    lemma_told_by_parts(known, spaces, word, tail);
    lemma_keywords_spelled(word);
    lemma_tokens(uppercase(word));
}

/// The number that digits tell: the one that they write in decimal; 0 where there are none, or
/// where it does not fit.
pub open spec fn number_told(digits: Seq<u8>) -> int {
    if digits.len() > 0 && decimal(digits) < usize::MAX {
        decimal(digits)
    } else {
        0
    }
}

/// Digits, and what stands behind the last of them.
pub open spec fn is_number_with_tail(digits: Seq<u8>, tail: Seq<u8>) -> bool {
    &&& is_decimal(digits)
    &&& tail.len() > 0 ==> {
        &&& tail[0] != CR
        &&& !(0x30 <= tail[0] <= 0x39)
        &&& digits.len() == 0 ==> tail[0] != SP
    }
}

proof fn lemma_number_told(separator: u8, gap: Seq<u8>, digits: Seq<u8>, tail: Seq<u8>)
    requires
        separator != LF,
        are_spaces(gap),
        is_number_with_tail(digits, tail),
    ensures
        read_number(separator, gap + digits + tail + seq![LF]) matches Some(scanned)
            && scanned.value == number_told(digits) && scanned.stop == stop_of(tail) && scanned.rest
            == left_of(tail),
{
    lemma_tail(tail);
    assert(gap + digits + tail + seq![LF] =~= gap + digits + seq![stop_of(tail)] + left_of(tail));
    law_scans_number(gap, digits, stop_of(tail), left_of(tail));
    law_size_of_number(digits);
}

proof fn lemma_behind_separator(separator: u8, first: Seq<u8>, second: Seq<u8>, third: Seq<u8>)
    ensures
        ({
            let tail = seq![separator] + first + second + third;
            &&& stop_of(tail) == separator
            &&& tail[0] == separator
            &&& left_of(tail) == first + second + third + seq![LF]
        }),
{
    let tail = seq![separator] + first + second + third;
    assert(left_of(tail) =~= first + second + third + seq![LF]);
}

/// The number behind SIZE and DELIVERBY is the one that its digits write in decimal.
pub proof fn law_number_behind_keyword(
    known: EhloReply,
    spaces: Seq<u8>,
    word: Seq<u8>,
    separator: u8,
    gap: Seq<u8>,
    digits: Seq<u8>,
    tail: Seq<u8>,
)
    requires
        are_parts(spaces, word, seq![separator] + gap + digits + tail),
        are_spaces(gap),
        is_number_with_tail(digits, tail),
    ensures
        ({
            let next = told(known, spaces + word + (seq![separator] + gap + digits + tail));
            &&& spells(word, "DELIVERBY") ==> next.deliver_by == number_told(digits)
            &&& spells(word, "SIZE") ==> next.size == number_told(digits)
        }),
{
    let behind = seq![separator] + gap + digits + tail;
    lemma_told_by_parts(known, spaces, word, behind);
    lemma_keywords_spelled(word);
    lemma_tokens(uppercase(word));
    lemma_behind_separator(separator, gap, digits, tail);
    lemma_number_told(separator, gap, digits, tail);
}

/// The first number behind FUTURERELEASE is the interval, and the second, where the line goes on,
/// the time. Each is the one that its digits write in decimal.
pub proof fn law_numbers_behind_future_release(
    known: EhloReply,
    spaces: Seq<u8>,
    word: Seq<u8>,
    separator: u8,
    gap: Seq<u8>,
    digits: Seq<u8>,
    separator2: u8,
    gap2: Seq<u8>,
    digits2: Seq<u8>,
    tail: Seq<u8>,
)
    requires
        ({
            let second = seq![separator2] + gap2 + digits2 + tail;
            &&& are_parts(spaces, word, seq![separator] + gap + digits + second)
            &&& is_number_with_tail(digits, second)
        }),
        are_spaces(gap),
        are_spaces(gap2),
        is_number_with_tail(digits2, tail),
        spells(word, "FUTURERELEASE"),
    ensures
        ({
            let second = seq![separator2] + gap2 + digits2 + tail;
            let next = told(known, spaces + word + (seq![separator] + gap + digits + second));
            &&& next.future_release_interval == number_told(digits)
            &&& next.future_release_datetime == number_told(digits2)
        }),
{
    let second = seq![separator2] + gap2 + digits2 + tail;
    let behind = seq![separator] + gap + digits + second;
    lemma_told_by_parts(known, spaces, word, behind);
    lemma_keywords_spelled(word);
    lemma_tokens(uppercase(word));
    lemma_behind_separator(separator, gap, digits, second);
    lemma_behind_separator(separator2, gap2, digits2, tail);
    lemma_number_told(separator, gap, digits, second);
    assert(behind[(1 + gap.len() + digits.len()) as int] == separator2);
    lemma_number_told(separator2, gap2, digits2, tail);
}

/// One number behind FUTURERELEASE, with nothing behind it, is the interval; the time is 0.
pub proof fn law_one_number_behind_future_release(
    known: EhloReply,
    spaces: Seq<u8>,
    word: Seq<u8>,
    separator: u8,
    gap: Seq<u8>,
    digits: Seq<u8>,
)
    requires
        are_parts(spaces, word, seq![separator] + gap + digits),
        are_spaces(gap),
        is_decimal(digits),
        spells(word, "FUTURERELEASE"),
    ensures
        ({
            let next = told(known, spaces + word + (seq![separator] + gap + digits));
            &&& next.future_release_interval == number_told(digits)
            &&& next.future_release_datetime == 0
        }),
{
    let behind = seq![separator] + gap + digits;
    let nothing = Seq::<u8>::empty();
    lemma_told_by_parts(known, spaces, word, behind);
    lemma_keywords_spelled(word);
    lemma_tokens(uppercase(word));
    lemma_behind_separator(separator, gap, digits, nothing);
    assert(behind =~= behind + nothing);
    lemma_number_told(separator, gap, digits, nothing);
}

/// Each priority assignment policy is told by its own name, in letters of any case. Any other word,
/// and none, tells MIXER.
pub proof fn law_policy_behind_priority(
    known: EhloReply,
    spaces: Seq<u8>,
    word: Seq<u8>,
    separator: u8,
    gap: Seq<u8>,
    policy: Seq<u8>,
    tail: Seq<u8>,
)
    requires
        are_parts(spaces, word, seq![separator] + gap + policy + tail),
        are_parts(gap, policy, tail),
        spells(word, "MT-PRIORITY"),
    ensures
        ({
            let next = told(known, spaces + word + (seq![separator] + gap + policy + tail));
            &&& spells(policy, "MIXER") ==> next.mt_priority == MtPriority::Mixer
            &&& spells(policy, "STANAG4406") ==> next.mt_priority == MtPriority::Stanag4406
            &&& spells(policy, "NSEP") ==> next.mt_priority == MtPriority::Nsep
            &&& !spells(policy, "STANAG4406") && !spells(policy, "NSEP") ==> next.mt_priority
                == MtPriority::Mixer
        }),
{
    let behind = seq![separator] + gap + policy + tail;
    lemma_told_by_parts(known, spaces, word, behind);
    lemma_keywords_spelled(word);
    lemma_tokens(uppercase(word));
    lemma_behind_separator(separator, gap, policy, tail);
    lemma_tail(tail);
    assert(gap + policy + tail + seq![LF] =~= gap + policy + seq![stop_of(tail)] + left_of(tail));
    law_scans_word(gap, policy, stop_of(tail), left_of(tail));
    lemma_keywords_spelled(policy);
    lemma_tokens(uppercase(policy));
    reveal_strlit("MIXER");
    reveal_strlit("STANAG4406");
    reveal_strlit("NSEP");
}

/// The text behind NO-SOLICITING, up to a space or the end of the line, is kept byte for byte,
/// where there is one.
pub proof fn law_text_behind_no_soliciting(
    known: EhloReply,
    spaces: Seq<u8>,
    word: Seq<u8>,
    separator: u8,
    gap: Seq<u8>,
    text: Seq<u8>,
    tail: Seq<u8>,
)
    requires
        are_parts(spaces, word, seq![separator] + gap + text + tail),
        are_spaces(gap),
        is_plain_text(text),
        tail.len() > 0 ==> text.len() > 0 && tail[0] == SP,
        spells(word, "NO-SOLICITING"),
    ensures
        ({
            let next = told(known, spaces + word + (seq![separator] + gap + text + tail));
            next.no_soliciting == if text.len() > 0 {
                Some(text)
            } else {
                None
            }
        }),
{
    let behind = seq![separator] + gap + text + tail;
    lemma_told_by_parts(known, spaces, word, behind);
    lemma_keywords_spelled(word);
    lemma_tokens(uppercase(word));
    lemma_behind_separator(separator, gap, text, tail);
    lemma_tail(tail);
    assert(gap + text + tail + seq![LF] =~= gap + text + seq![stop_of(tail)] + left_of(tail));
    law_scans_text(gap, text, stop_of(tail), left_of(tail));
}

/// A keyword with nothing behind it tells that its extension has no parameters: numbers are 0, the
/// policy is MIXER, and there is no text. Mechanisms that are known stay.
pub proof fn law_keyword_without_parameters(known: EhloReply, spaces: Seq<u8>, word: Seq<u8>)
    requires
        are_parts(spaces, word, seq![]),
    ensures
        ({
            let next = told(known, spaces + word + Seq::<u8>::empty());
            &&& spells(word, "AUTH") ==> next.auth_mechanisms == known.auth_mechanisms
            &&& spells(word, "DELIVERBY") ==> next.deliver_by == 0
            &&& spells(word, "FUTURERELEASE") ==> next.future_release_interval == 0
                && next.future_release_datetime == 0
            &&& spells(word, "MT-PRIORITY") ==> next.mt_priority == MtPriority::Mixer
            &&& spells(word, "NO-SOLICITING") ==> next.no_soliciting is None
            &&& spells(word, "SIZE") ==> next.size == 0
        }),
{
    lemma_told_by_parts(known, spaces, word, seq![]);
    lemma_keywords_spelled(word);
    lemma_tokens(uppercase(word));
}

/// Names with a space between any two.
pub open spec fn name_list(names: Seq<Seq<u8>>) -> Seq<u8>
    decreases names.len(),
{
    if names.len() == 0 {
        seq![]
    } else if names.len() == 1 {
        names[0]
    } else {
        names[0] + seq![SP] + name_list(names.skip(1))
    }
}

/// The bits with those of the mechanisms that are named.
pub open spec fn with_mechanisms(bits: u64, names: Seq<Seq<u8>>) -> u64
    decreases names.len(),
{
    if names.len() == 0 {
        bits
    } else {
        with_mechanisms(
            match mechanism_bit(uppercase(names[0])) {
                Some(bit) => bits | bit,
                None => bits,
            },
            names.skip(1),
        )
    }
}

proof fn lemma_names(separator: u8, names: Seq<Seq<u8>>, bits: u64)
    requires
        separator != LF,
        names.len() > 0,
        forall|i: int| 0 <= i < names.len() ==> is_plain_text(#[trigger] names[i]),
    ensures
        read_mechanisms(separator, name_list(names) + seq![LF], bits) matches Some(scanned)
            && scanned.value == with_mechanisms(bits, names),
    decreases names.len(),
{
    let name = names[0];
    let others = names.skip(1);
    let nothing = Seq::<u8>::empty();
    let input = name_list(names) + seq![LF];
    let next = match mechanism_bit(uppercase(name)) {
        Some(bit) => bits | bit,
        None => bits,
    };
    assert(is_plain_text(name));
    assert forall|i: int| 0 <= i < others.len() implies is_plain_text(#[trigger] others[i]) by {
        assert(others[i] == names[i + 1]);
    }
    if names.len() == 1 {
        assert(input =~= nothing + name + seq![LF] + nothing);
        law_scans_text(nothing, name, LF, nothing);
        reveal_with_fuel(read_mechanisms, 2);
        reveal_with_fuel(with_mechanisms, 2);
    } else {
        let rest = name_list(others) + seq![LF];
        if name.len() > 0 {
            assert(input =~= nothing + name + seq![SP] + rest);
            law_scans_text(nothing, name, SP, rest);
            lemma_names(SP, others, next);
        } else {
            assert(uppercase(name).len() == 0);
            assert(input =~= seq![SP] + rest);
            assert(input.skip(1) =~= rest);
            assert(scan_text(input, seq![]) == scan_text(rest, seq![]));
            lemma_names(separator, others, bits);
        }
    }
}

/// A line with AUTH adds the bits of the mechanisms that it names, and takes none away.
pub proof fn law_names_behind_auth(
    known: EhloReply,
    spaces: Seq<u8>,
    word: Seq<u8>,
    separator: u8,
    names: Seq<Seq<u8>>,
)
    requires
        are_parts(spaces, word, seq![separator] + name_list(names)),
        names.len() > 0,
        forall|i: int| 0 <= i < names.len() ==> is_plain_text(#[trigger] names[i]),
        spells(word, "AUTH"),
    ensures
        told(known, spaces + word + (seq![separator] + name_list(names))).auth_mechanisms
            == with_mechanisms(known.auth_mechanisms, names),
{
    let behind = seq![separator] + name_list(names);
    lemma_told_by_parts(known, spaces, word, behind);
    lemma_keywords_spelled(word);
    lemma_tokens(uppercase(word));
    assert(behind[0] == separator);
    assert(left_of(behind) =~= name_list(names) + seq![LF]);
    lemma_names(separator, names, known.auth_mechanisms);
}

/// A mechanism is among the bits exactly where it was before or one of the names is its own.
pub proof fn law_with_mechanisms(bits: u64, names: Seq<Seq<u8>>, mask: u64)
    ensures
        (with_mechanisms(bits, names) & mask != 0) <==> (bits & mask != 0 || exists|i: int|
            0 <= i < names.len() && has_mechanism(uppercase(#[trigger] names[i]), mask)),
    decreases names.len(),
{
    if names.len() > 0 {
        let others = names.skip(1);
        let added = match mechanism_bit(uppercase(names[0])) {
            Some(bit) => bit,
            None => 0,
        };
        let next = match mechanism_bit(uppercase(names[0])) {
            Some(bit) => bits | bit,
            None => bits,
        };
        assert(((bits | added) & mask != 0) == (bits & mask != 0 || added & mask != 0))
            by (bit_vector);
        assert(0u64 & mask == 0) by (bit_vector);
        law_with_mechanisms(next, others, mask);
        assert(forall|i: int| 0 <= i < others.len() ==> #[trigger] others[i] == names[i + 1]);
        if exists|i: int| 0 <= i < others.len() && has_mechanism(
            uppercase(#[trigger] others[i]),
            mask,
        ) {
            let i = choose|i: int|
                0 <= i < others.len() && has_mechanism(uppercase(#[trigger] others[i]), mask);
            assert(has_mechanism(uppercase(names[i + 1]), mask));
        }
        if exists|i: int| 0 <= i < names.len() && has_mechanism(
            uppercase(#[trigger] names[i]),
            mask,
        ) {
            let i = choose|i: int|
                0 <= i < names.len() && has_mechanism(uppercase(#[trigger] names[i]), mask);
            if i > 0 {
                assert(has_mechanism(uppercase(others[i - 1]), mask));
            }
        }
    }
}

proof fn lemma_head(
    head: Seq<u8>,
    so_far: Seq<u8>,
    spaces: Seq<u8>,
    word: Seq<u8>,
    stop: u8,
    rest: Seq<u8>,
)
    requires
        without_returns(head) == spaces + word,
        so_far.len() > 0 ==> spaces.len() == 0,
        so_far.len() + word.len() <= 16,
        are_spaces(spaces),
        is_plain_word(word),
        stop != CR,
        so_far.len() + word.len() < 16 ==> !is_word_byte(stop),
        so_far.len() + word.len() == 0 ==> stop != SP,
    ensures
        scan_keyword(head + seq![stop] + rest, so_far) == Some(
            Scanned { value: so_far + uppercase(word), stop, rest },
        ),
    decreases head.len(),
{
    let input = head + seq![stop] + rest;
    let both = spaces + word;
    if head.len() == 0 {
        assert(both.len() == 0);
        assert(so_far + uppercase(word) =~= so_far);
        assert(input.skip(1) =~= rest);
    } else {
        let tail = head.skip(1);
        assert(input[0] == head[0]);
        assert(input.skip(1) =~= tail + seq![stop] + rest);
        if head[0] == CR {
            lemma_head(tail, so_far, spaces, word, stop, rest);
        } else {
            assert(both == seq![head[0]] + without_returns(tail));
            assert(both[0] == head[0]);
            assert(both.skip(1) =~= without_returns(tail));
            if spaces.len() > 0 {
                let fewer = spaces.skip(1);
                assert(spaces[0] == head[0]);
                assert(both.skip(1) =~= fewer + word);
                assert forall|i: int| 0 <= i < fewer.len() implies #[trigger] fewer[i] == SP by {
                    assert(fewer[i] == spaces[i + 1]);
                }
                lemma_head(tail, so_far, fewer, word, stop, rest);
            } else {
                let others = word.skip(1);
                let next = so_far.push(uppercase(word)[0]);
                assert(word[0] == head[0]);
                assert(is_word_byte(word[0]));
                assert(both.skip(1) =~= spaces + others);
                assert forall|i: int| 0 <= i < others.len() implies is_word_byte(
                    #[trigger] others[i],
                ) by {
                    assert(is_word_byte(word[i + 1]));
                }
                lemma_head(tail, next, spaces, others, stop, rest);
                assert(next + uppercase(others) =~= so_far + uppercase(word));
            }
        }
    }
}

proof fn lemma_no_line_feed(bytes: Seq<u8>)
    requires
        is_one_line(without_returns(bytes)),
    ensures
        is_one_line(bytes),
    decreases bytes.len(),
{
    if bytes.len() > 0 {
        let kept = without_returns(bytes);
        let others = without_returns(bytes.skip(1));
        if bytes[0] != CR {
            assert(kept[0] == bytes[0]);
            assert forall|i: int| 0 <= i < others.len() implies #[trigger] others[i] != LF by {
                assert(others[i] == kept[i + 1]);
            }
        }
        lemma_no_line_feed(bytes.skip(1));
        assert forall|i: int| 0 <= i < bytes.len() implies #[trigger] bytes[i] != LF by {
            if i > 0 {
                assert(bytes[i] == bytes.skip(1)[i - 1]);
            }
        }
    }
}

/// Carriage returns before, in and behind the keyword of a line do not count.
pub proof fn law_returns_in_keyword(
    known: EhloReply,
    head: Seq<u8>,
    spaces: Seq<u8>,
    word: Seq<u8>,
    tail: Seq<u8>,
)
    requires
        without_returns(head) == spaces + word,
        are_parts(spaces, word, tail),
    ensures
        told(known, head + tail) == told(known, spaces + word + tail),
{
    let line = head + tail;
    let (stop, rest) = (stop_of(tail), left_of(tail));
    lemma_told_by_parts(known, spaces, word, tail);
    lemma_tail(tail);
    assert(line + seq![LF] =~= head + seq![stop] + rest);
    lemma_head(head, seq![], spaces, word, stop, rest);
    assert(Seq::<u8>::empty() + uppercase(word) =~= uppercase(word));
    assert(is_one_line(spaces + word)) by {
        let both = spaces + word;
        assert forall|i: int| 0 <= i < both.len() implies #[trigger] both[i] != LF by {
            if i < spaces.len() {
                assert(both[i] == spaces[i]);
            } else {
                assert(is_word_byte(word[i - spaces.len()]));
            }
        }
    }
    lemma_no_line_feed(head);
    assert forall|i: int| 0 <= i < line.len() implies #[trigger] line[i] != LF by {
        if i >= head.len() {
            assert(line[i] == tail[i - head.len()]);
        }
    }
    lemma_line_end(line);
    law_extension_takes_its_line(known, line + seq![LF]);
}

proof fn lemma_mechanisms_returns(stop: u8, input: Seq<u8>, bits: u64)
    requires
        stop != CR,
    ensures
        agree_but_returns(
            read_mechanisms(stop, input, bits),
            read_mechanisms(stop, without_returns(input), bits),
        ),
    decreases input.len(),
{
    if stop != LF {
        law_text_passes_over_returns(input, seq![]);
        lemma_text_in_line(input, seq![]);
        if let Some(name) = scan_text(input, seq![]) {
            lemma_mechanisms_returns(
                name.stop,
                name.rest,
                match mechanism_bit(uppercase(name.value)) {
                    Some(bit) => bits | bit,
                    None => bits,
                },
            );
        }
    }
}

proof fn lemma_read_number_returns(stop: u8, input: Seq<u8>)
    requires
        stop != CR,
    ensures
        agree_but_returns(read_number(stop, input), read_number(stop, without_returns(input))),
{
    law_number_passes_over_returns(input, None);
}

proof fn lemma_parameters_returns(known: EhloReply, word: Seq<u8>, stop: u8, input: Seq<u8>)
    requires
        stop != CR,
        word != bytes_of("ENHANCEDSTATUSCO"),
    ensures
        agree_but_returns(
            read_parameters(known, word, stop, input),
            read_parameters(known, word, stop, without_returns(input)),
        ),
{
    lemma_mechanisms_returns(stop, input, known.auth_mechanisms);
    lemma_read_number_returns(stop, input);
    if let Some(number) = read_number(stop, input) {
        lemma_read_number_returns(number.stop, number.rest);
    }
    law_keyword_passes_over_returns(input, seq![]);
    law_text_passes_over_returns(input, seq![]);
}

proof fn lemma_without_returns_of_line(line: Seq<u8>)
    ensures
        without_returns(line + seq![LF]) == without_returns(line) + seq![LF],
    decreases line.len(),
{
    let input = line + seq![LF];
    if line.len() == 0 {
        assert(input.skip(1) =~= seq![]);
        reveal_with_fuel(without_returns, 2);
        assert(without_returns(input) =~= without_returns(line) + seq![LF]);
    } else {
        assert(input.skip(1) =~= line.skip(1) + seq![LF]);
        lemma_without_returns_of_line(line.skip(1));
        assert(without_returns(input) =~= without_returns(line) + seq![LF]);
    }
}

/// Carriage returns anywhere on a line do not count, but for those behind the first 16 letters of
/// the one keyword that is longer.
pub proof fn law_returns_do_not_count(
    known: EhloReply,
    line: Seq<u8>,
    spaces: Seq<u8>,
    word: Seq<u8>,
    tail: Seq<u8>,
)
    requires
        without_returns(line) == spaces + word + tail,
        are_parts(spaces, word, tail),
        !spells(word, "ENHANCEDSTATUSCO"),
    ensures
        told(known, line) == told(known, spaces + word + tail),
{
    let plain = spaces + word + tail;
    let (stop, rest) = (stop_of(tail), left_of(tail));
    lemma_told_by_parts(known, spaces, word, tail);
    lemma_keywords_spelled(word);
    lemma_tokens(uppercase(word));
    lemma_tail(tail);
    assert(plain + seq![LF] =~= spaces + word + seq![stop] + rest);
    law_scans_word(spaces, word, stop, rest);
    assert(is_one_line(plain)) by {
        assert forall|i: int| 0 <= i < plain.len() implies #[trigger] plain[i] != LF by {
            if i < spaces.len() {
                assert(plain[i] == spaces[i]);
            } else if i < spaces.len() + word.len() {
                assert(is_word_byte(word[i - spaces.len()]));
            } else {
                assert(plain[i] == tail[i - spaces.len() - word.len()]);
            }
        }
    }
    lemma_no_line_feed(line);
    lemma_without_returns_of_line(line);
    law_keyword_passes_over_returns(line + seq![LF], seq![]);
    let found = scan_keyword(line + seq![LF], seq![])->0;
    lemma_parameters_returns(known, found.value, found.stop, found.rest);
    lemma_line_end(line);
    law_extension_takes_its_line(known, line + seq![LF]);
}

/// The longest word at the start of a line, with `room` bytes left for it, and what follows it.
proof fn lemma_word_of(line: Seq<u8>, room: nat) -> (parts: (Seq<u8>, Seq<u8>))
    ensures
        line == parts.0 + parts.1,
        parts.0.len() <= room,
        forall|i: int| 0 <= i < parts.0.len() ==> is_word_byte(#[trigger] parts.0[i]),
        parts.1.len() > 0 && parts.0.len() < room ==> !is_word_byte(parts.1[0]),
    decreases line.len(),
{
    let nothing = Seq::<u8>::empty();
    if line.len() == 0 || room == 0 || !is_word_byte(line[0]) {
        assert(line =~= nothing + line);
        (nothing, line)
    } else {
        let (word, tail) = lemma_word_of(line.skip(1), (room - 1) as nat);
        let whole = seq![line[0]] + word;
        assert(line =~= seq![line[0]] + line.skip(1));
        assert(seq![line[0]] + (word + tail) =~= whole + tail);
        assert forall|i: int| 0 <= i < whole.len() implies is_word_byte(#[trigger] whole[i]) by {
            if i > 0 {
                assert(is_word_byte(word[i - 1]));
            }
        }
        (whole, tail)
    }
}

/// Every line without carriage returns has parts, so that what such lines tell is told of all of
/// them.
pub proof fn law_every_line_has_parts(line: Seq<u8>) -> (parts: (Seq<u8>, Seq<u8>, Seq<u8>))
    requires
        is_one_line(line),
        forall|i: int| 0 <= i < line.len() ==> #[trigger] line[i] != CR,
    ensures
        line == parts.0 + parts.1 + parts.2,
        are_parts(parts.0, parts.1, parts.2),
    decreases line.len(),
{
    let nothing = Seq::<u8>::empty();
    if line.len() > 0 && line[0] == SP {
        let others = line.skip(1);
        assert(forall|i: int| 0 <= i < others.len() ==> #[trigger] others[i] == line[i + 1]);
        let (spaces, word, tail) = law_every_line_has_parts(others);
        let more = seq![SP] + spaces;
        assert(line =~= seq![SP] + others);
        assert(seq![SP] + (spaces + word + tail) =~= more + word + tail);
        assert forall|i: int| 0 <= i < more.len() implies #[trigger] more[i] == SP by {
            if i > 0 {
                assert(more[i] == spaces[i - 1]);
            }
        }
        (more, word, tail)
    } else {
        let (word, tail) = lemma_word_of(line, 16);
        assert(line =~= nothing + word + tail);
        assert forall|i: int| 0 <= i < tail.len() implies #[trigger] tail[i] != LF && tail[i]
            != CR by {
            assert(tail[i] == line[word.len() + i]);
        }
        if tail.len() > 0 && word.len() == 0 {
            assert(tail[0] == line[0]);
        }
        (nothing, word, tail)
    }
}

} // verus!
