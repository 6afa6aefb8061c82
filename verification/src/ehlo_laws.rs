//! What holds of the answer to EHLO over all answers and all ways to cut them.

use crate::ascii::{digit_value, to_upper, CR, HYPHEN, LF, SP};
use crate::ehlo::{
    law_extension_takes_its_line, lemma_line_shrinks, read_des, read_extension, read_header,
    read_hostname, read_line, read_lines, read_mechanisms, read_number, read_parameters, Header,
    Parsed,
};
use crate::notation::{is_decimal, without_returns};
use crate::offers::{extension_bit, mechanism_bit, uppercase, EXT_ENHANCED_STATUS_CODES};
use crate::reader::{after_line, lemma_text_in_line, scan_keyword, scan_number, scan_text, Scanned};
use crate::receiver::MAX_REPONSE_LENGTH;
use crate::text::{bytes_of, law_text_of_bytes, lemma_bytes_of_ascii, lossy_text};
use crate::types::{EhloReply, EhloResponse, ErrorView, MtPriority};
use vstd::prelude::*;
use vstd::utf8::{encode_utf8, valid_utf8};

verus! {

/// What was read, with `more` behind the input.
pub open spec fn extended<T>(scanned: Scanned<T>, more: Seq<u8>) -> Scanned<T> {
    Scanned { rest: scanned.rest + more, ..scanned }
}

proof fn lemma_first_of_two(input: Seq<u8>, more: Seq<u8>)
    requires
        input.len() > 0,
    ensures
        (input + more).len() > 0,
        (input + more)[0] == input[0],
        (input + more).skip(1) == input.skip(1) + more,
{
    assert((input + more).skip(1) =~= input.skip(1) + more);
}

proof fn lemma_after_line_extends(input: Seq<u8>, more: Seq<u8>)
    ensures
        after_line(input) matches Some(rest) ==> after_line(input + more) == Some(rest + more),
    decreases input.len(),
{
    if input.len() > 0 {
        lemma_first_of_two(input, more);
        lemma_after_line_extends(input.skip(1), more);
    }
}

proof fn lemma_keyword_extends(input: Seq<u8>, word: Seq<u8>, more: Seq<u8>)
    ensures
        scan_keyword(input, word) matches Some(scanned) ==> scan_keyword(input + more, word)
            == Some(extended(scanned, more)),
    decreases input.len(),
{
    if input.len() > 0 {
        lemma_first_of_two(input, more);
        lemma_keyword_extends(input.skip(1), word, more);
        lemma_keyword_extends(input.skip(1), word.push(to_upper(input[0])), more);
    }
}

proof fn lemma_number_extends(input: Seq<u8>, number: Option<nat>, more: Seq<u8>)
    ensures
        scan_number(input, number) matches Some(scanned) ==> scan_number(input + more, number)
            == Some(extended(scanned, more)),
    decreases input.len(),
{
    if input.len() > 0 {
        lemma_first_of_two(input, more);
        lemma_number_extends(input.skip(1), number, more);
        lemma_number_extends(
            input.skip(1),
            Some(
                match number {
                    Some(number) => number * 10,
                    None => 0,
                } + digit_value(input[0]) as nat,
            ),
            more,
        );
    }
}

proof fn lemma_text_extends(input: Seq<u8>, text: Seq<u8>, more: Seq<u8>)
    ensures
        scan_text(input, text) matches Some(scanned) ==> scan_text(input + more, text) == Some(
            extended(scanned, more),
        ),
    decreases input.len(),
{
    if input.len() > 0 {
        lemma_first_of_two(input, more);
        lemma_text_extends(input.skip(1), text, more);
        lemma_text_extends(input.skip(1), text.push(input[0]), more);
    }
}

proof fn lemma_mechanisms_extend(stop: u8, input: Seq<u8>, bits: u64, more: Seq<u8>)
    ensures
        read_mechanisms(stop, input, bits) matches Some(scanned) ==> read_mechanisms(
            stop,
            input + more,
            bits,
        ) == Some(extended(scanned, more)),
    decreases input.len(),
{
    if stop != LF {
        lemma_text_extends(input, seq![], more);
        lemma_text_in_line(input, seq![]);
        if let Some(name) = scan_text(input, seq![]) {
            lemma_mechanisms_extend(
                name.stop,
                name.rest,
                match mechanism_bit(uppercase(name.value)) {
                    Some(bit) => bits | bit,
                    None => bits,
                },
                more,
            );
        }
    }
}

proof fn lemma_read_number_extends(stop: u8, input: Seq<u8>, more: Seq<u8>)
    ensures
        read_number(stop, input) matches Some(scanned) ==> read_number(stop, input + more) == Some(
            extended(scanned, more),
        ),
{
    lemma_number_extends(input, None, more);
}

proof fn lemma_parameters_extend(
    known: EhloReply,
    word: Seq<u8>,
    stop: u8,
    input: Seq<u8>,
    more: Seq<u8>,
)
    ensures
        read_parameters(known, word, stop, input) matches Some(scanned) ==> read_parameters(
            known,
            word,
            stop,
            input + more,
        ) == Some(extended(scanned, more)),
{
    lemma_mechanisms_extend(stop, input, known.auth_mechanisms, more);
    lemma_read_number_extends(stop, input, more);
    if let Some(number) = read_number(stop, input) {
        lemma_read_number_extends(number.stop, number.rest, more);
    }
    lemma_keyword_extends(input, seq![], more);
    lemma_text_extends(input, seq![], more);
    if input.len() > 0 {
        lemma_first_of_two(input, more);
    }
    if input.len() > 1 {
        assert((input + more)[1] == input[1]);
        assert((input + more).skip(2) =~= input.skip(2) + more);
    }
}

proof fn lemma_extension_extends(known: EhloReply, input: Seq<u8>, more: Seq<u8>)
    ensures
        read_extension(known, input) matches Some((next, rest)) ==> read_extension(
            known,
            input + more,
        ) == Some((next, rest + more)),
{
    lemma_keyword_extends(input, seq![], more);
    if let Some(word) = scan_keyword(input, seq![]) {
        lemma_parameters_extend(known, word.value, word.stop, word.rest, more);
        if let Some(told) = read_parameters(known, word.value, word.stop, word.rest) {
            lemma_after_line_extends(told.rest, more);
        }
    }
}

/// What comes of reading `input` stays the same with `more` behind it, unless `input` ends too
/// early.
pub open spec fn stands<T>(parsed: Parsed<T>, with_more: Parsed<T>, more: Seq<u8>) -> bool {
    match parsed {
        Parsed::Done(value, rest) => with_more == Parsed::Done(value, rest + more),
        Parsed::Failed(error, rest) => with_more == Parsed::<T>::Failed(error, rest + more),
        Parsed::Short => true,
    }
}

proof fn lemma_hostname_stands(input: Seq<u8>, host: Seq<u8>, more: Seq<u8>)
    ensures
        stands(read_hostname(input, host), read_hostname(input + more, host), more),
    decreases input.len(),
{
    if input.len() > 0 {
        lemma_first_of_two(input, more);
        lemma_hostname_stands(input.skip(1), host, more);
        lemma_hostname_stands(input.skip(1), host.push(input[0]), more);
        lemma_after_line_extends(input.skip(1), more);
    }
}

proof fn lemma_header_stands(input: Seq<u8>, more: Seq<u8>)
    ensures
        stands(read_header(input), read_header(input + more), more),
{
    let whole = input + more;
    assert forall|i: int| 0 <= i < input.len() implies whole[i] == input[i] by {}
    if input.len() >= 1 {
        assert(whole.skip(1) =~= input.skip(1) + more);
    }
    if input.len() >= 2 {
        assert(whole.skip(2) =~= input.skip(2) + more);
    }
    if input.len() >= 3 {
        assert(whole.skip(3) =~= input.skip(3) + more);
        assert(whole.take(3) =~= input.take(3));
    }
    if input.len() >= 4 {
        assert(whole.skip(4) =~= input.skip(4) + more);
    }
}

/// An answer that was read, or refused, does not depend on what follows it: with more bytes behind
/// it the outcome is the same, and those bytes are left.
pub proof fn law_answer_stands(known: EhloReply, input: Seq<u8>, is_first: bool, more: Seq<u8>)
    ensures
        stands(
            read_lines(known, input, is_first),
            read_lines(known, input + more, is_first),
            more,
        ),
    decreases input.len(),
{
    lemma_header_stands(input, more);
    if let Parsed::Done(Header::Line { is_last }, text) = read_header(input) {
        lemma_hostname_stands(text, seq![], more);
        lemma_extension_extends(known, text, more);
        lemma_line_shrinks(known, text, is_first);
        if let Parsed::Done(next, rest) = read_line(known, text, is_first) {
            if !is_last {
                law_answer_stands(next, rest, false, more);
            }
        }
    }
}

/// No part of an answer is taken for the whole: cut anywhere before its end, it needs more data.
pub proof fn law_cut_answer_needs_more(known: EhloReply, answer: Seq<u8>, is_first: bool, n: int)
    requires
        read_lines(known, answer, is_first) matches Parsed::Done(_, rest) && rest.len() == 0,
        0 <= n < answer.len(),
    ensures
        read_lines(known, answer.take(n), is_first) is Short,
{
    law_answer_stands(known, answer.take(n), is_first, answer.skip(n));
    assert(answer.take(n) + answer.skip(n) =~= answer);
}

/// A server that answers with another code than 250 is taken not to know the command, whatever
/// follows the code.
pub proof fn law_other_code_is_refused(
    known: EhloReply,
    code: Seq<u8>,
    rest: Seq<u8>,
    is_first: bool,
)
    requires
        code.len() == 3,
        is_decimal(code),
        code != bytes_of("250"),
    ensures
        read_lines(known, code + rest, is_first) == Parsed::<EhloReply>::Failed(
            ErrorView::UnknownCommand,
            rest,
        ),
{
    let input = code + rest;
    assert(input[0] == code[0] && input[1] == code[1] && input[2] == code[2]);
    assert(input.take(3) =~= code);
    assert(input.skip(3) =~= rest);
}

/// No line feed stands in `bytes`.
pub open spec fn is_one_line(bytes: Seq<u8>) -> bool {
    forall|i: int| 0 <= i < bytes.len() ==> #[trigger] bytes[i] != LF
}

/// What a line that offers an extension, given without its separator and its end, adds to what is
/// known of the server.
pub open spec fn told(known: EhloReply, line: Seq<u8>) -> EhloReply {
    match read_extension(known, line + seq![LF]) {
        Some((next, _)) => next,
        None => known,
    }
}

/// What the lines tell, one after the other.
pub open spec fn all_told(known: EhloReply, lines: Seq<Seq<u8>>) -> EhloReply
    decreases lines.len(),
{
    if lines.len() == 0 {
        known
    } else {
        all_told(told(known, lines[0]), lines.skip(1))
    }
}

/// A line of an answer.
pub open spec fn answer_line(is_last: bool, line: Seq<u8>) -> Seq<u8> {
    bytes_of("250") + seq![
        if is_last {
            SP
        } else {
            HYPHEN
        },
    ] + line + seq![LF]
}

/// The lines of an answer; the last of them is marked as such.
pub open spec fn answer_lines(lines: Seq<Seq<u8>>) -> Seq<u8>
    decreases lines.len(),
{
    if lines.len() == 0 {
        seq![]
    } else {
        answer_line(lines.len() == 1, lines[0]) + answer_lines(lines.skip(1))
    }
}

/// The name of a host: it fits, and has no byte that would end it.
pub open spec fn is_host(host: Seq<u8>) -> bool {
    &&& host.len() <= MAX_REPONSE_LENGTH
    &&& forall|i: int|
        0 <= i < host.len() ==> #[trigger] host[i] != SP && host[i] != CR && host[i] != LF
}

/// What may follow the name of the host on the first line: nothing, or a space and any words, with
/// or without carriage returns before them.
pub open spec fn is_comment(comment: Seq<u8>) -> bool
    decreases comment.len(),
{
    ||| comment.len() == 0
    ||| comment[0] == SP && is_one_line(comment)
    ||| comment[0] == CR && is_comment(comment.skip(1))
}

pub proof fn lemma_line_end(line: Seq<u8>)
    requires
        is_one_line(line),
    ensures
        after_line(line + seq![LF]) == Some(Seq::<u8>::empty()),
    decreases line.len(),
{
    let input = line + seq![LF];
    if line.len() == 0 {
        assert(input.skip(1) =~= Seq::<u8>::empty());
    } else {
        lemma_first_of_two(line, seq![LF]);
        assert forall|i: int| 0 <= i < line.skip(1).len() implies #[trigger] line.skip(1)[i]
            != LF by {
            assert(line.skip(1)[i] == line[i + 1]);
        }
        lemma_line_end(line.skip(1));
    }
}

/// A line is read to its end, and what follows it is left.
proof fn lemma_told(known: EhloReply, line: Seq<u8>, rest: Seq<u8>)
    requires
        is_one_line(line),
    ensures
        read_extension(known, line + seq![LF] + rest) == Some((told(known, line), rest)),
{
    lemma_line_end(line);
    law_extension_takes_its_line(known, line + seq![LF]);
    lemma_extension_extends(known, line + seq![LF], rest);
    assert(Seq::<u8>::empty() + rest =~= rest);
}

proof fn lemma_first_line(host: Seq<u8>, comment: Seq<u8>, so_far: Seq<u8>, rest: Seq<u8>)
    requires
        is_host(so_far + host),
        is_comment(comment),
    ensures
        read_hostname(host + comment + seq![LF] + rest, so_far) == Parsed::Done(
            so_far + host,
            rest,
        ),
    decreases host.len() + comment.len(),
{
    let input = host + comment + seq![LF] + rest;
    if host.len() > 0 {
        let next = so_far.push(host[0]);
        assert(so_far + host =~= next + host.skip(1));
        assert((so_far + host)[so_far.len() as int] == host[0]);
        assert(input.skip(1) =~= host.skip(1) + comment + seq![LF] + rest);
        lemma_first_line(host.skip(1), comment, next, rest);
    } else {
        assert(so_far + host =~= so_far);
        assert(input =~= comment + seq![LF] + rest);
        if comment.len() == 0 {
            assert(input.skip(1) =~= rest);
        } else if comment[0] == SP {
            let words = comment.skip(1);
            assert forall|i: int| 0 <= i < words.len() implies #[trigger] words[i] != LF by {
                assert(words[i] == comment[i + 1]);
            }
            lemma_line_end(words);
            lemma_after_line_extends(words + seq![LF], rest);
            assert(input.skip(1) =~= words + seq![LF] + rest);
            assert(Seq::<u8>::empty() + rest =~= rest);
        } else {
            assert(input.skip(1) =~= host + comment.skip(1) + seq![LF] + rest);
            lemma_first_line(host, comment.skip(1), so_far, rest);
        }
    }
}

/// A line that has a code and a separator.
proof fn lemma_header(is_last: bool, text: Seq<u8>)
    ensures
        read_header(
            bytes_of("250") + seq![
                if is_last {
                    SP
                } else {
                    HYPHEN
                },
            ] + text,
        ) == Parsed::Done(Header::Line { is_last }, text),
{
    let separator = if is_last {
        SP
    } else {
        HYPHEN
    };
    let input = bytes_of("250") + seq![separator] + text;
    reveal_strlit("250");
    lemma_bytes_of_ascii("250");
    assert(input.take(3) =~= bytes_of("250"));
    assert(input.skip(4) =~= text);
    assert(input[0] == bytes_of("250")[0] && input[1] == bytes_of("250")[1] && input[2]
        == bytes_of("250")[2] && input[3] == separator);
}

proof fn lemma_reads_lines(known: EhloReply, lines: Seq<Seq<u8>>, rest: Seq<u8>)
    requires
        lines.len() > 0,
        forall|i: int| 0 <= i < lines.len() ==> is_one_line(#[trigger] lines[i]),
    ensures
        read_lines(known, answer_lines(lines) + rest, false) == Parsed::Done(
            all_told(known, lines),
            rest,
        ),
    decreases lines.len(),
{
    let is_last = lines.len() == 1;
    let others = lines.skip(1);
    let behind = answer_lines(others) + rest;
    law_next_line_tells_an_extension(known, is_last, lines[0], behind);
    assert(answer_lines(lines) + rest =~= answer_line(is_last, lines[0]) + behind);
    assert forall|i: int| 0 <= i < others.len() implies is_one_line(#[trigger] others[i]) by {
        assert(others[i] == lines[i + 1]);
    }
    if is_last {
        assert(behind =~= rest);
        reveal_with_fuel(all_told, 2);
    } else {
        lemma_reads_lines(told(known, lines[0]), others, rest);
    }
}

/// An answer is read back: the name of the host on its first line, and what each of the other
/// lines tells, one after the other. Of what follows the answer nothing is taken.
pub proof fn law_reads_answer(
    host: Seq<u8>,
    comment: Seq<u8>,
    lines: Seq<Seq<u8>>,
    rest: Seq<u8>,
)
    requires
        is_host(host),
        is_comment(comment),
        forall|i: int| 0 <= i < lines.len() ==> is_one_line(#[trigger] lines[i]),
    ensures
        ({
            let first = EhloReply { hostname: host, ..EhloReply::empty() };
            read_lines(
                EhloReply::empty(),
                answer_line(lines.len() == 0, host + comment) + answer_lines(lines) + rest,
                true,
            ) == Parsed::Done(all_told(first, lines), rest)
        }),
{
    let first = EhloReply { hostname: host, ..EhloReply::empty() };
    let is_last = lines.len() == 0;
    let behind = answer_lines(lines) + rest;
    let text = host + comment + seq![LF] + behind;
    let separator = if is_last {
        SP
    } else {
        HYPHEN
    };
    lemma_header(is_last, text);
    assert(answer_line(is_last, host + comment) + answer_lines(lines) + rest =~= bytes_of("250")
        + seq![separator] + text);
    assert(Seq::<u8>::empty() + host =~= host);
    lemma_first_line(host, comment, seq![], behind);
    if is_last {
        assert(behind =~= rest);
    } else {
        lemma_reads_lines(first, lines, rest);
    }
}

/// Words behind the name of the host: nothing, or a space and anything up to the end of the line.
pub open spec fn is_remark(remark: Seq<u8>) -> bool {
    remark.len() > 0 ==> remark[0] == SP && is_one_line(remark)
}

/// A name that no byte of its own ends, with any carriage returns in it.
pub open spec fn is_name_with_returns(name: Seq<u8>) -> bool {
    forall|i: int| 0 <= i < name.len() ==> #[trigger] name[i] != SP && name[i] != LF
}

proof fn lemma_name(name: Seq<u8>, so_far: Seq<u8>, rest: Seq<u8>)
    requires
        is_name_with_returns(name),
        so_far.len() + without_returns(name).len() <= MAX_REPONSE_LENGTH,
    ensures
        read_hostname(name + rest, so_far) == read_hostname(rest, so_far + without_returns(name)),
    decreases name.len(),
{
    let kept = without_returns(name);
    if name.len() == 0 {
        assert(name + rest =~= rest);
        assert(so_far + kept =~= so_far);
    } else {
        let others = name.skip(1);
        lemma_first_of_two(name, rest);
        assert forall|i: int| 0 <= i < others.len() implies #[trigger] others[i] != SP && others[i]
            != LF by {
            assert(others[i] == name[i + 1]);
        }
        if name[0] == CR {
            lemma_name(others, so_far, rest);
        } else {
            let next = so_far.push(name[0]);
            lemma_name(others, next, rest);
            assert(next + without_returns(others) =~= so_far + kept);
        }
    }
}

proof fn lemma_remark(remark: Seq<u8>, name: Seq<u8>, rest: Seq<u8>)
    requires
        is_remark(remark),
    ensures
        read_hostname(remark + seq![LF] + rest, name) == Parsed::Done(name, rest),
{
    let behind = remark + seq![LF] + rest;
    if remark.len() == 0 {
        assert(behind.skip(1) =~= rest);
        assert(behind[0] == LF);
    } else {
        let words = remark.skip(1);
        assert forall|i: int| 0 <= i < words.len() implies #[trigger] words[i] != LF by {
            assert(words[i] == remark[i + 1]);
        }
        assert(behind[0] == SP);
        assert(behind.skip(1) =~= words + seq![LF] + rest);
        lemma_line_end(words);
        lemma_after_line_extends(words + seq![LF], rest);
        assert(Seq::<u8>::empty() + rest =~= rest);
    }
}

/// The first line tells the name of the server: what stands before the first space, without
/// carriage returns. Nothing else on the line counts, and nothing else that is known changes.
pub proof fn law_first_line_tells_the_name(
    known: EhloReply,
    is_last: bool,
    name: Seq<u8>,
    remark: Seq<u8>,
    rest: Seq<u8>,
)
    requires
        is_name_with_returns(name),
        without_returns(name).len() <= MAX_REPONSE_LENGTH,
        is_remark(remark),
    ensures
        ({
            let next = EhloReply { hostname: without_returns(name), ..known };
            read_lines(known, answer_line(is_last, name + remark) + rest, true) == if is_last {
                Parsed::Done(next, rest)
            } else {
                read_lines(next, rest, false)
            }
        }),
{
    let separator = if is_last {
        SP
    } else {
        HYPHEN
    };
    let behind = remark + seq![LF] + rest;
    let text = name + behind;
    let nothing = Seq::<u8>::empty();
    lemma_header(is_last, text);
    assert(answer_line(is_last, name + remark) + rest =~= bytes_of("250") + seq![separator] + text);
    lemma_name(name, nothing, behind);
    assert(nothing + without_returns(name) =~= without_returns(name));
    lemma_remark(remark, without_returns(name), rest);
}

/// Once the name of the server has reached its longest length, the next byte of it is refused.
pub proof fn law_name_beyond_longest_length_is_refused(
    known: EhloReply,
    is_last: bool,
    name: Seq<u8>,
    byte: u8,
    rest: Seq<u8>,
)
    requires
        is_name_with_returns(name),
        without_returns(name).len() == 4096,
        byte != SP,
        byte != CR,
        byte != LF,
    ensures
        ({
            let separator = if is_last {
                SP
            } else {
                HYPHEN
            };
            let text = name + (seq![byte] + rest);
            read_lines(known, bytes_of("250") + seq![separator] + text, true) == Parsed::<
                EhloReply,
            >::Failed(ErrorView::ResponseTooLong, rest)
        }),
{
    let behind = seq![byte] + rest;
    lemma_header(is_last, name + behind);
    lemma_name(name, seq![], behind);
    assert(Seq::<u8>::empty() + without_returns(name) =~= without_returns(name));
    assert(behind.skip(1) =~= rest);
}

/// An answer with the name of the server alone tells nothing else.
pub proof fn law_name_alone_tells_nothing_else(name: Seq<u8>, remark: Seq<u8>, rest: Seq<u8>)
    requires
        is_name_with_returns(name),
        without_returns(name).len() <= MAX_REPONSE_LENGTH,
        is_remark(remark),
    ensures
        ({
            let parsed = read_lines(
                EhloReply::empty(),
                answer_line(true, name + remark) + rest,
                true,
            );
            &&& parsed matches Parsed::Done(told, left)
            &&& told == (EhloReply {
                hostname: without_returns(name),
                capabilities: 0,
                auth_mechanisms: 0,
                deliver_by: 0,
                future_release_interval: 0,
                future_release_datetime: 0,
                mt_priority: MtPriority::Mixer,
                no_soliciting: None,
                size: 0,
            })
            &&& left == rest
        }),
{
    law_first_line_tells_the_name(EhloReply::empty(), true, name, remark, rest);
}

/// A response that stands for what was told tells that and nothing else.
pub proof fn law_response_tells_what_was_told(response: EhloResponse<String>, told: EhloReply)
    requires
        response.stands_for(told),
    ensures
        valid_utf8(told.hostname) ==> encode_utf8(response.hostname@) == told.hostname,
        !valid_utf8(told.hostname) ==> response.hostname@ == lossy_text(told.hostname),
        response.capabilities == told.capabilities,
        response.auth_mechanisms == told.auth_mechanisms,
        response.deliver_by == told.deliver_by,
        response.future_release_interval == told.future_release_interval,
        response.future_release_datetime == told.future_release_datetime,
        response.mt_priority == told.mt_priority,
        match told.no_soliciting {
            Some(bytes) => {
                &&& response.no_soliciting matches Some(text)
                &&& valid_utf8(bytes) ==> encode_utf8(text@) == bytes
                &&& !valid_utf8(bytes) ==> text@ == lossy_text(bytes)
            },
            None => response.no_soliciting is None,
        },
        response.size == told.size,
{
    law_text_of_bytes(response.hostname@, told.hostname);
    if let (Some(text), Some(bytes)) = (response.no_soliciting, told.no_soliciting) {
        law_text_of_bytes(text@, bytes);
    }
}

/// Every other line tells what it tells of an extension. Reading goes on behind it, unless it is
/// marked as the last.
pub proof fn law_next_line_tells_an_extension(
    known: EhloReply,
    is_last: bool,
    line: Seq<u8>,
    rest: Seq<u8>,
)
    requires
        is_one_line(line),
    ensures
        read_lines(known, answer_line(is_last, line) + rest, false) == if is_last {
            Parsed::Done(told(known, line), rest)
        } else {
            read_lines(told(known, line), rest, false)
        },
{
    let separator = if is_last {
        SP
    } else {
        HYPHEN
    };
    let text = line + seq![LF] + rest;
    lemma_header(is_last, text);
    assert(answer_line(is_last, line) + rest =~= bytes_of("250") + seq![separator] + text);
    lemma_told(known, line, rest);
}

/// A line with a code and nothing behind it ends the answer, and tells nothing.
pub proof fn law_bare_code_ends_answer(known: EhloReply, rest: Seq<u8>, is_first: bool)
    ensures
        read_lines(known, bytes_of("250") + seq![LF] + rest, is_first) == Parsed::Done(known, rest),
{
    let input = bytes_of("250") + seq![LF] + rest;
    reveal_strlit("250");
    lemma_bytes_of_ascii("250");
    assert(input[0] == bytes_of("250")[0] && input[1] == bytes_of("250")[1] && input[2]
        == bytes_of("250")[2] && input[3] == LF);
    assert(input.take(3) =~= bytes_of("250"));
    assert(input.skip(4) =~= rest);
}

/// At the start of a line only digits are taken for a code: the first other byte is refused.
pub proof fn law_other_bytes_in_code_are_refused(
    known: EhloReply,
    digits: Seq<u8>,
    byte: u8,
    rest: Seq<u8>,
    is_first: bool,
)
    requires
        is_decimal(digits),
        digits.len() < 3,
        !(0x30 <= byte <= 0x39),
    ensures
        read_lines(known, digits + seq![byte] + rest, is_first) == Parsed::<EhloReply>::Failed(
            ErrorView::SyntaxError { syntax: "unexpected token"@ },
            rest,
        ),
{
    let input = digits + seq![byte] + rest;
    assert(forall|i: int| 0 <= i < digits.len() ==> #[trigger] input[i] == digits[i]);
    assert(input[digits.len() as int] == byte);
    assert(input.skip(digits.len() as int + 1) =~= rest);
}

/// Behind the code stands a space, a hyphen or a line feed: every other byte is refused.
pub proof fn law_other_separators_are_refused(
    known: EhloReply,
    byte: u8,
    rest: Seq<u8>,
    is_first: bool,
)
    requires
        byte != SP,
        byte != HYPHEN,
        byte != LF,
    ensures
        read_lines(known, bytes_of("250") + seq![byte] + rest, is_first) == Parsed::<
            EhloReply,
        >::Failed(ErrorView::SyntaxError { syntax: "unexpected token"@ }, rest),
{
    let input = bytes_of("250") + seq![byte] + rest;
    reveal_strlit("250");
    lemma_bytes_of_ascii("250");
    assert(input[0] == bytes_of("250")[0] && input[1] == bytes_of("250")[1] && input[2]
        == bytes_of("250")[2] && input[3] == byte);
    assert(input.take(3) =~= bytes_of("250"));
    assert(input.skip(4) =~= rest);
}

/// The bit of the extension that a line offers; no bit where it offers none.
pub open spec fn offered(line: Seq<u8>) -> u32 {
    match scan_keyword(line + seq![LF], seq![]) {
        Some(word) => if word.value == bytes_of("ENHANCEDSTATUSCO") {
            match read_des(word.stop, word.rest) {
                Some(fits) => if fits.value {
                    EXT_ENHANCED_STATUS_CODES
                } else {
                    0
                },
                None => 0,
            }
        } else {
            extension_bit(word.value)
        },
        None => 0,
    }
}

/// A line adds the extension that it offers, and takes none away. The name of the server stays.
pub proof fn law_line_adds_its_extension(known: EhloReply, line: Seq<u8>)
    requires
        is_one_line(line),
    ensures
        told(known, line).capabilities == known.capabilities | offered(line),
        told(known, line).hostname == known.hostname,
{
    lemma_line_end(line);
    law_extension_takes_its_line(known, line + seq![LF]);
}

/// The server offers an extension exactly where one of its lines does.
pub proof fn law_offers_what_lines_offer(known: EhloReply, lines: Seq<Seq<u8>>, bit: u32)
    requires
        forall|i: int| 0 <= i < lines.len() ==> is_one_line(#[trigger] lines[i]),
    ensures
        (all_told(known, lines).capabilities & bit != 0) <==> (known.capabilities & bit != 0
            || exists|i: int| 0 <= i < lines.len() && offered(#[trigger] lines[i]) & bit != 0),
    decreases lines.len(),
{
    if lines.len() > 0 {
        let line = lines[0];
        let others = lines.skip(1);
        assert forall|i: int| 0 <= i < others.len() implies is_one_line(#[trigger] others[i]) by {
            assert(others[i] == lines[i + 1]);
        }
        law_line_adds_its_extension(known, line);
        law_offers_what_lines_offer(told(known, line), others, bit);
        let before = known.capabilities;
        let added = offered(line);
        assert(((before | added) & bit != 0) == (before & bit != 0 || added & bit != 0))
            by (bit_vector);
        if all_told(known, lines).capabilities & bit != 0 && before & bit == 0 && added & bit == 0 {
            let i = choose|i: int|
                0 <= i < others.len() && offered(#[trigger] others[i]) & bit != 0;
            assert(offered(lines[i + 1]) & bit != 0);
        }
        if exists|i: int| 0 <= i < lines.len() && offered(#[trigger] lines[i]) & bit != 0 {
            let i = choose|i: int| 0 <= i < lines.len() && offered(#[trigger] lines[i]) & bit != 0;
            if i > 0 {
                assert(offered(others[i - 1]) & bit != 0);
            }
        }
    }
}

/// The names on the rest of a line, in upper case.
pub open spec fn mechanism_names(stop: u8, input: Seq<u8>) -> Seq<Seq<u8>>
    decreases input.len(),
    via mechanism_names_decreases
{
    if stop == LF {
        seq![]
    } else {
        match scan_text(input, seq![]) {
            Some(name) => seq![uppercase(name.value)] + mechanism_names(name.stop, name.rest),
            None => seq![],
        }
    }
}

#[via_fn]
proof fn mechanism_names_decreases(stop: u8, input: Seq<u8>) {
    lemma_text_in_line(input, seq![]);
}

/// The name is that of a mechanism with one of the bits in `mask`.
pub open spec fn has_mechanism(name: Seq<u8>, mask: u64) -> bool {
    mechanism_bit(name) matches Some(bit) && bit & mask != 0
}

/// A mechanism is on offer exactly where it was before or one of the names on the line is its
/// own.
pub proof fn law_offers_named_mechanisms(stop: u8, input: Seq<u8>, bits: u64, mask: u64)
    requires
        read_mechanisms(stop, input, bits) is Some,
    ensures
        ({
            let names = mechanism_names(stop, input);
            (read_mechanisms(stop, input, bits)->0.value & mask != 0) <==> (bits & mask != 0
                || exists|i: int| 0 <= i < names.len() && has_mechanism(#[trigger] names[i], mask))
        }),
    decreases input.len(),
{
    if stop != LF {
        lemma_text_in_line(input, seq![]);
        let name = scan_text(input, seq![])->0;
        let first = uppercase(name.value);
        let added = match mechanism_bit(first) {
            Some(bit) => bit,
            None => 0,
        };
        let next = match mechanism_bit(first) {
            Some(bit) => bits | bit,
            None => bits,
        };
        assert(((bits | added) & mask != 0) == (bits & mask != 0 || added & mask != 0))
            by (bit_vector);
        assert(0u64 & mask == 0) by (bit_vector);
        law_offers_named_mechanisms(name.stop, name.rest, next, mask);
        let others = mechanism_names(name.stop, name.rest);
        let names = mechanism_names(stop, input);
        assert(names[0] == first);
        assert(forall|i: int| 0 <= i < others.len() ==> #[trigger] others[i] == names[i + 1]);
        if exists|i: int| 0 <= i < others.len() && has_mechanism(#[trigger] others[i], mask) {
            let i = choose|i: int|
                0 <= i < others.len() && has_mechanism(#[trigger] others[i], mask);
            assert(has_mechanism(names[i + 1], mask));
        }
        if exists|i: int| 0 <= i < names.len() && has_mechanism(#[trigger] names[i], mask) {
            let i = choose|i: int| 0 <= i < names.len() && has_mechanism(#[trigger] names[i], mask);
            if i > 0 {
                assert(has_mechanism(others[i - 1], mask));
            }
        }
    }
}

/// A line with a keyword that is not known tells nothing.
pub proof fn law_unknown_keyword_tells_nothing(known: EhloReply, line: Seq<u8>)
    requires
        is_one_line(line),
        scan_keyword(line + seq![LF], seq![]) matches Some(word) && extension_bit(word.value) == 0
            && word.value != bytes_of("ENHANCEDSTATUSCO"),
    ensures
        told(known, line) == known,
{
    lemma_line_end(line);
    law_extension_takes_its_line(known, line + seq![LF]);
    let before = known.capabilities;
    assert(before | 0 == before) by (bit_vector);
    let word = scan_keyword(line + seq![LF], seq![])->0.value;
    assert(told(known, line) =~= known);
}

} // verus!
