//! What does not count on the lines of an answer to EHLO: blanks at their end, and the case of
//! letters.

use crate::ascii::{digit_value, to_upper, CR, LF, SP};
use crate::ehlo::{
    law_extension_takes_its_line, read_des, read_extension, read_mechanisms, read_number,
    read_parameters, read_priority, read_text,
};
use crate::ehlo_laws::{all_told, is_one_line, lemma_line_end, told};
use crate::offers::{mechanism_bit, uppercase};
use crate::reader::{after_line, lemma_text_in_line, scan_keyword, scan_number, scan_text, Scanned};
use crate::text::lemma_bytes_of_ascii;
use crate::types::EhloReply;
use vstd::prelude::*;

verus! {

/// Spaces and carriage returns only.
pub open spec fn is_blank(bytes: Seq<u8>) -> bool {
    forall|i: int| 0 <= i < bytes.len() ==> #[trigger] bytes[i] == SP || bytes[i] == CR
}

/// Blanks, and the end of the line.
spec fn is_blank_end(bytes: Seq<u8>) -> bool {
    bytes.len() > 0 && bytes.last() == LF && is_blank(bytes.drop_last())
}

/// Nothing but blanks follows on the line in which the byte `stop`, just before `rest`, was read.
spec fn has_ended(stop: u8, rest: Seq<u8>) -> bool {
    if stop == LF {
        rest.len() == 0
    } else {
        (stop == SP || stop == CR) && is_blank_end(rest)
    }
}

/// Two places that differ in the blanks at the end of the line only: `blanks` stand there at the
/// second.
spec fn is_same_place(stop: u8, rest: Seq<u8>, stop2: u8, rest2: Seq<u8>, blanks: Seq<u8>) -> bool {
    if stop == LF {
        rest.len() == 0 && has_ended(stop2, rest2)
    } else {
        &&& stop == stop2
        &&& rest.len() > 0
        &&& rest.last() == LF
        &&& is_one_line(rest.drop_last())
        &&& rest2 == rest.drop_last() + blanks + seq![LF]
    }
}

proof fn lemma_blank_step(bytes: Seq<u8>)
    requires
        is_blank_end(bytes),
    ensures
        if bytes[0] == LF {
            bytes.skip(1).len() == 0
        } else {
            (bytes[0] == SP || bytes[0] == CR) && is_blank_end(bytes.skip(1))
        },
{
    if bytes.len() > 1 {
        let blanks = bytes.drop_last();
        assert(bytes[0] == blanks[0]);
        let tail = bytes.skip(1).drop_last();
        assert forall|i: int| 0 <= i < tail.len() implies #[trigger] tail[i] == SP || tail[i]
            == CR by {
            assert(tail[i] == blanks[i + 1]);
        }
    }
}

proof fn lemma_keyword_blank(input: Seq<u8>, word: Seq<u8>)
    requires
        is_blank_end(input),
    ensures
        scan_keyword(input, word) matches Some(scanned) && scanned.value == word && has_ended(
            scanned.stop,
            scanned.rest,
        ),
    decreases input.len(),
{
    lemma_blank_step(input);
    if input[0] != LF {
        lemma_keyword_blank(input.skip(1), word);
    }
}

proof fn lemma_number_blank(input: Seq<u8>, number: Option<nat>)
    requires
        is_blank_end(input),
    ensures
        scan_number(input, number) matches Some(scanned) && scanned.value == number && has_ended(
            scanned.stop,
            scanned.rest,
        ),
    decreases input.len(),
{
    lemma_blank_step(input);
    if input[0] != LF {
        lemma_number_blank(input.skip(1), number);
    }
}

proof fn lemma_text_blank(input: Seq<u8>, text: Seq<u8>)
    requires
        is_blank_end(input),
    ensures
        scan_text(input, text) matches Some(scanned) && scanned.value == text && has_ended(
            scanned.stop,
            scanned.rest,
        ) && (text.len() == 0 ==> scanned.stop == LF),
    decreases input.len(),
{
    lemma_blank_step(input);
    if input[0] != LF {
        lemma_text_blank(input.skip(1), text);
    }
}

/// The first byte of a line, with and without blanks at its end.
proof fn lemma_line_step(line: Seq<u8>, blanks: Seq<u8>)
    requires
        is_one_line(line),
        is_blank(blanks),
    ensures
        line.len() == 0 ==> line + seq![LF] == seq![LF],
        line.len() == 0 ==> is_blank_end(line + blanks + seq![LF]),
        line.len() > 0 ==> {
            &&& (line + seq![LF])[0] == line[0]
            &&& (line + blanks + seq![LF])[0] == line[0]
            &&& (line + seq![LF]).skip(1) == line.skip(1) + seq![LF]
            &&& (line + blanks + seq![LF]).skip(1) == line.skip(1) + blanks + seq![LF]
            &&& is_one_line(line.skip(1))
            &&& line[0] != LF
            &&& is_same_place(
                line[0],
                (line + seq![LF]).skip(1),
                line[0],
                (line + blanks + seq![LF]).skip(1),
                blanks,
            )
        },
{
    if line.len() == 0 {
        assert(line + seq![LF] =~= seq![LF]);
        assert((line + blanks + seq![LF]).drop_last() =~= blanks);
    } else {
        let rest = line.skip(1);
        assert((line + seq![LF]).skip(1) =~= rest + seq![LF]);
        assert((line + blanks + seq![LF]).skip(1) =~= rest + blanks + seq![LF]);
        assert((rest + seq![LF]).drop_last() =~= rest);
        assert forall|i: int| 0 <= i < rest.len() implies #[trigger] rest[i] != LF by {
            assert(rest[i] == line[i + 1]);
        }
    }
}

/// The readings agree in what they read, and stop at the same place.
spec fn agree<T>(first: Option<Scanned<T>>, second: Option<Scanned<T>>, blanks: Seq<u8>) -> bool {
    match (first, second) {
        (Some(a), Some(b)) => a.value == b.value && is_same_place(
            a.stop,
            a.rest,
            b.stop,
            b.rest,
            blanks,
        ),
        _ => false,
    }
}

proof fn lemma_keyword_agrees(line: Seq<u8>, blanks: Seq<u8>, word: Seq<u8>)
    requires
        is_one_line(line),
        is_blank(blanks),
    ensures
        agree(
            scan_keyword(line + seq![LF], word),
            scan_keyword(line + blanks + seq![LF], word),
            blanks,
        ),
    decreases line.len(),
{
    lemma_line_step(line, blanks);
    if line.len() == 0 {
        lemma_keyword_blank(line + blanks + seq![LF], word);
    } else {
        lemma_keyword_agrees(line.skip(1), blanks, word);
        lemma_keyword_agrees(line.skip(1), blanks, word.push(to_upper(line[0])));
    }
}

proof fn lemma_number_agrees(line: Seq<u8>, blanks: Seq<u8>, number: Option<nat>)
    requires
        is_one_line(line),
        is_blank(blanks),
    ensures
        agree(
            scan_number(line + seq![LF], number),
            scan_number(line + blanks + seq![LF], number),
            blanks,
        ),
    decreases line.len(),
{
    lemma_line_step(line, blanks);
    if line.len() == 0 {
        lemma_number_blank(line + blanks + seq![LF], number);
    } else {
        lemma_number_agrees(line.skip(1), blanks, number);
        lemma_number_agrees(
            line.skip(1),
            blanks,
            Some(
                match number {
                    Some(number) => number * 10,
                    None => 0,
                } + digit_value(line[0]) as nat,
            ),
        );
    }
}

proof fn lemma_text_agrees(line: Seq<u8>, blanks: Seq<u8>, text: Seq<u8>)
    requires
        is_one_line(line),
        is_blank(blanks),
    ensures
        agree(
            scan_text(line + seq![LF], text),
            scan_text(line + blanks + seq![LF], text),
            blanks,
        ),
    decreases line.len(),
{
    lemma_line_step(line, blanks);
    if line.len() == 0 {
        lemma_text_blank(line + blanks + seq![LF], text);
    } else {
        lemma_text_agrees(line.skip(1), blanks, text);
        lemma_text_agrees(line.skip(1), blanks, text.push(line[0]));
    }
}

/// A place that is not the end of the line has the rest of the line before it.
proof fn lemma_place(stop: u8, rest: Seq<u8>, stop2: u8, rest2: Seq<u8>, blanks: Seq<u8>) -> (line:
    Seq<u8>)
    requires
        is_same_place(stop, rest, stop2, rest2, blanks),
    ensures
        line == rest.drop_last(),
        stop != LF ==> is_one_line(line) && rest == line + seq![LF] && rest2 == line + blanks
            + seq![LF],
{
    let line = rest.drop_last();
    if stop != LF {
        assert(rest =~= line + seq![LF]);
    }
    line
}

proof fn lemma_read_number_agrees(
    stop: u8,
    rest: Seq<u8>,
    stop2: u8,
    rest2: Seq<u8>,
    blanks: Seq<u8>,
)
    requires
        is_blank(blanks),
        is_same_place(stop, rest, stop2, rest2, blanks),
    ensures
        agree(read_number(stop, rest), read_number(stop2, rest2), blanks),
{
    let line = lemma_place(stop, rest, stop2, rest2, blanks);
    if stop != LF {
        lemma_number_agrees(line, blanks, None);
    } else if stop2 != LF {
        lemma_number_blank(rest2, None);
    }
}

proof fn lemma_read_priority_agrees(
    stop: u8,
    rest: Seq<u8>,
    stop2: u8,
    rest2: Seq<u8>,
    blanks: Seq<u8>,
)
    requires
        is_blank(blanks),
        is_same_place(stop, rest, stop2, rest2, blanks),
    ensures
        agree(read_priority(stop, rest), read_priority(stop2, rest2), blanks),
{
    let line = lemma_place(stop, rest, stop2, rest2, blanks);
    if stop != LF {
        lemma_keyword_agrees(line, blanks, seq![]);
    } else if stop2 != LF {
        lemma_keyword_blank(rest2, seq![]);
        reveal_strlit("STANAG4406");
        reveal_strlit("NSEP");
        lemma_bytes_of_ascii("STANAG4406");
        lemma_bytes_of_ascii("NSEP");
    }
}

proof fn lemma_read_text_agrees(
    stop: u8,
    rest: Seq<u8>,
    stop2: u8,
    rest2: Seq<u8>,
    blanks: Seq<u8>,
)
    requires
        is_blank(blanks),
        is_same_place(stop, rest, stop2, rest2, blanks),
    ensures
        agree(read_text(stop, rest), read_text(stop2, rest2), blanks),
{
    let line = lemma_place(stop, rest, stop2, rest2, blanks);
    if stop != LF {
        lemma_text_agrees(line, blanks, seq![]);
    } else if stop2 != LF {
        lemma_text_blank(rest2, seq![]);
    }
}

proof fn lemma_read_mechanisms_agree(
    stop: u8,
    rest: Seq<u8>,
    stop2: u8,
    rest2: Seq<u8>,
    blanks: Seq<u8>,
    bits: u64,
)
    requires
        is_blank(blanks),
        is_same_place(stop, rest, stop2, rest2, blanks),
    ensures
        agree(read_mechanisms(stop, rest, bits), read_mechanisms(stop2, rest2, bits), blanks),
    decreases rest.len(),
{
    let line = lemma_place(stop, rest, stop2, rest2, blanks);
    if stop != LF {
        lemma_text_agrees(line, blanks, seq![]);
        lemma_text_in_line(rest, seq![]);
        let name = scan_text(rest, seq![])->0;
        let name2 = scan_text(rest2, seq![])->0;
        lemma_read_mechanisms_agree(
            name.stop,
            name.rest,
            name2.stop,
            name2.rest,
            blanks,
            match mechanism_bit(uppercase(name.value)) {
                Some(bit) => bits | bit,
                None => bits,
            },
        );
    } else if stop2 != LF {
        lemma_text_blank(rest2, seq![]);
        assert(uppercase(seq![]).len() == 0);
        reveal_with_fuel(read_mechanisms, 2);
    }
}

proof fn lemma_read_des_agrees(
    stop: u8,
    rest: Seq<u8>,
    stop2: u8,
    rest2: Seq<u8>,
    blanks: Seq<u8>,
)
    requires
        is_blank(blanks),
        is_same_place(stop, rest, stop2, rest2, blanks),
    ensures
        agree(read_des(stop, rest), read_des(stop2, rest2), blanks),
{
    let line = lemma_place(stop, rest, stop2, rest2, blanks);
    if stop != LF {
        lemma_line_step(line, blanks);
        if line.len() == 0 {
            lemma_blank_step(rest2);
        } else {
            let tail = line.skip(1);
            lemma_line_step(tail, blanks);
            assert(rest[1] == rest.skip(1)[0]);
            assert(rest2[1] == rest2.skip(1)[0]);
            assert(rest.skip(2) =~= rest.skip(1).skip(1));
            assert(rest2.skip(2) =~= rest2.skip(1).skip(1));
            if tail.len() == 0 {
                lemma_blank_step(rest2.skip(1));
            }
        }
    }
}

proof fn lemma_parameters_agree(
    known: EhloReply,
    word: Seq<u8>,
    stop: u8,
    rest: Seq<u8>,
    stop2: u8,
    rest2: Seq<u8>,
    blanks: Seq<u8>,
)
    requires
        is_blank(blanks),
        is_same_place(stop, rest, stop2, rest2, blanks),
    ensures
        agree(
            read_parameters(known, word, stop, rest),
            read_parameters(known, word, stop2, rest2),
            blanks,
        ),
{
    lemma_read_des_agrees(stop, rest, stop2, rest2, blanks);
    lemma_read_mechanisms_agree(stop, rest, stop2, rest2, blanks, known.auth_mechanisms);
    lemma_read_number_agrees(stop, rest, stop2, rest2, blanks);
    lemma_read_priority_agrees(stop, rest, stop2, rest2, blanks);
    lemma_read_text_agrees(stop, rest, stop2, rest2, blanks);
    let number = read_number(stop, rest)->0;
    let number2 = read_number(stop2, rest2)->0;
    lemma_read_number_agrees(number.stop, number.rest, number2.stop, number2.rest, blanks);
}

/// Spaces and carriage returns at the end of a line do not count.
pub proof fn law_blanks_at_the_end(known: EhloReply, line: Seq<u8>, blanks: Seq<u8>)
    requires
        is_one_line(line),
        is_blank(blanks),
    ensures
        told(known, line + blanks) == told(known, line),
{
    lemma_keyword_agrees(line, blanks, seq![]);
    let word = scan_keyword(line + seq![LF], seq![])->0;
    let word2 = scan_keyword(line + blanks + seq![LF], seq![])->0;
    lemma_parameters_agree(known, word.value, word.stop, word.rest, word2.stop, word2.rest, blanks);
    let both = line + blanks;
    assert forall|i: int| 0 <= i < both.len() implies #[trigger] both[i] != LF by {
        if i >= line.len() {
            assert(both[i] == blanks[i - line.len()]);
        }
    }
    lemma_line_end(line);
    lemma_line_end(both);
    law_extension_takes_its_line(known, line + seq![LF]);
    law_extension_takes_its_line(known, both + seq![LF]);
}

/// Blanks at the end of any of the lines that offer extensions do not count.
pub proof fn law_blanks_at_the_ends(
    known: EhloReply,
    lines: Seq<Seq<u8>>,
    blanks: Seq<Seq<u8>>,
    padded: Seq<Seq<u8>>,
)
    requires
        lines.len() == blanks.len() == padded.len(),
        forall|i: int| 0 <= i < lines.len() ==> is_one_line(#[trigger] lines[i]),
        forall|i: int| 0 <= i < lines.len() ==> is_blank(#[trigger] blanks[i]),
        forall|i: int| 0 <= i < lines.len() ==> #[trigger] padded[i] == lines[i] + blanks[i],
    ensures
        all_told(known, padded) == all_told(known, lines),
    decreases lines.len(),
{
    if lines.len() > 0 {
        assert(padded[0] == lines[0] + blanks[0]);
        law_blanks_at_the_end(known, lines[0], blanks[0]);
        let (lines1, blanks1, padded1) = (lines.skip(1), blanks.skip(1), padded.skip(1));
        assert forall|i: int| 0 <= i < lines1.len() implies is_one_line(#[trigger] lines1[i]) by {
            assert(lines1[i] == lines[i + 1]);
        }
        assert forall|i: int| 0 <= i < lines1.len() implies is_blank(#[trigger] blanks1[i]) by {
            assert(blanks1[i] == blanks[i + 1]);
        }
        assert forall|i: int| 0 <= i < lines1.len() implies #[trigger] padded1[i] == lines1[i]
            + blanks1[i] by {
            assert(padded1[i] == padded[i + 1]);
        }
        law_blanks_at_the_ends(told(known, lines[0]), lines1, blanks1, padded1);
    }
}

/// The same letters, in upper or lower case.
pub open spec fn is_same_but_case(a: Seq<u8>, b: Seq<u8>) -> bool {
    uppercase(a) == uppercase(b)
}

proof fn lemma_case_step(a: Seq<u8>, b: Seq<u8>)
    requires
        is_same_but_case(a, b),
    ensures
        a.len() == b.len(),
        forall|i: int| 0 <= i < a.len() ==> to_upper(#[trigger] a[i]) == to_upper(b[i]),
        a.len() > 0 ==> is_same_but_case(a.skip(1), b.skip(1)),
        a.len() > 1 ==> is_same_but_case(a.skip(2), b.skip(2)),
{
    assert(uppercase(a).len() == a.len() && uppercase(b).len() == b.len());
    assert forall|i: int| 0 <= i < a.len() implies to_upper(#[trigger] a[i]) == to_upper(b[i]) by {
        assert(uppercase(a)[i] == uppercase(b)[i]);
    }
    if a.len() > 0 {
        assert(uppercase(a.skip(1)) =~= uppercase(b.skip(1)));
    }
    if a.len() > 1 {
        assert(uppercase(a.skip(2)) =~= uppercase(b.skip(2)));
    }
}

/// The readings agree in what they read, and stop at places that differ in case only.
spec fn agree_but_case<T>(first: Option<Scanned<T>>, second: Option<Scanned<T>>) -> bool {
    match (first, second) {
        (Some(a), Some(b)) => {
            &&& a.value == b.value
            &&& to_upper(a.stop) == to_upper(b.stop)
            &&& is_same_but_case(a.rest, b.rest)
        },
        (None, None) => true,
        _ => false,
    }
}

/// The readings agree up to the case of letters.
spec fn agree_up_to_case(
    first: Option<Scanned<Seq<u8>>>,
    second: Option<Scanned<Seq<u8>>>,
) -> bool {
    match (first, second) {
        (Some(a), Some(b)) => {
            &&& is_same_but_case(a.value, b.value)
            &&& to_upper(a.stop) == to_upper(b.stop)
            &&& is_same_but_case(a.rest, b.rest)
        },
        (None, None) => true,
        _ => false,
    }
}

proof fn lemma_after_line_case(a: Seq<u8>, b: Seq<u8>)
    requires
        is_same_but_case(a, b),
    ensures
        match (after_line(a), after_line(b)) {
            (Some(rest), Some(rest2)) => is_same_but_case(rest, rest2),
            (None, None) => true,
            _ => false,
        },
    decreases a.len(),
{
    lemma_case_step(a, b);
    if a.len() > 0 {
        assert(to_upper(a[0]) == to_upper(b[0]));
        lemma_after_line_case(a.skip(1), b.skip(1));
    }
}

proof fn lemma_keyword_case(a: Seq<u8>, b: Seq<u8>, word: Seq<u8>)
    requires
        is_same_but_case(a, b),
    ensures
        agree_but_case(scan_keyword(a, word), scan_keyword(b, word)),
    decreases a.len(),
{
    lemma_case_step(a, b);
    if a.len() > 0 {
        assert(to_upper(a[0]) == to_upper(b[0]));
        lemma_keyword_case(a.skip(1), b.skip(1), word);
        lemma_keyword_case(a.skip(1), b.skip(1), word.push(to_upper(a[0])));
    }
}

proof fn lemma_number_case(a: Seq<u8>, b: Seq<u8>, number: Option<nat>)
    requires
        is_same_but_case(a, b),
    ensures
        agree_but_case(scan_number(a, number), scan_number(b, number)),
    decreases a.len(),
{
    lemma_case_step(a, b);
    if a.len() > 0 {
        assert(to_upper(a[0]) == to_upper(b[0]));
        lemma_number_case(a.skip(1), b.skip(1), number);
        lemma_number_case(
            a.skip(1),
            b.skip(1),
            Some(
                match number {
                    Some(number) => number * 10,
                    None => 0,
                } + digit_value(a[0]) as nat,
            ),
        );
    }
}

proof fn lemma_text_case(a: Seq<u8>, b: Seq<u8>, text: Seq<u8>, text2: Seq<u8>)
    requires
        is_same_but_case(a, b),
        is_same_but_case(text, text2),
    ensures
        agree_up_to_case(scan_text(a, text), scan_text(b, text2)),
    decreases a.len(),
{
    lemma_case_step(a, b);
    lemma_case_step(text, text2);
    if a.len() > 0 {
        assert(to_upper(a[0]) == to_upper(b[0]));
        assert(uppercase(text.push(a[0])) =~= uppercase(text).push(to_upper(a[0])));
        assert(uppercase(text2.push(b[0])) =~= uppercase(text2).push(to_upper(b[0])));
        lemma_text_case(a.skip(1), b.skip(1), text, text2);
        lemma_text_case(a.skip(1), b.skip(1), text.push(a[0]), text2.push(b[0]));
    }
}

proof fn lemma_mechanisms_case(stop: u8, a: Seq<u8>, stop2: u8, b: Seq<u8>, bits: u64)
    requires
        to_upper(stop) == to_upper(stop2),
        is_same_but_case(a, b),
    ensures
        agree_but_case(read_mechanisms(stop, a, bits), read_mechanisms(stop2, b, bits)),
    decreases a.len(),
{
    if stop != LF {
        lemma_text_case(a, b, seq![], seq![]);
        lemma_text_in_line(a, seq![]);
        if let Some(name) = scan_text(a, seq![]) {
            let name2 = scan_text(b, seq![])->0;
            lemma_mechanisms_case(
                name.stop,
                name.rest,
                name2.stop,
                name2.rest,
                match mechanism_bit(uppercase(name.value)) {
                    Some(bit) => bits | bit,
                    None => bits,
                },
            );
        }
    }
}

proof fn lemma_read_number_case(stop: u8, a: Seq<u8>, stop2: u8, b: Seq<u8>)
    requires
        to_upper(stop) == to_upper(stop2),
        is_same_but_case(a, b),
    ensures
        agree_but_case(read_number(stop, a), read_number(stop2, b)),
{
    lemma_number_case(a, b, None);
}

proof fn lemma_read_priority_case(stop: u8, a: Seq<u8>, stop2: u8, b: Seq<u8>)
    requires
        to_upper(stop) == to_upper(stop2),
        is_same_but_case(a, b),
    ensures
        agree_but_case(read_priority(stop, a), read_priority(stop2, b)),
{
    lemma_keyword_case(a, b, seq![]);
}

proof fn lemma_read_des_case(stop: u8, a: Seq<u8>, stop2: u8, b: Seq<u8>)
    requires
        to_upper(stop) == to_upper(stop2),
        is_same_but_case(a, b),
    ensures
        agree_but_case(read_des(stop, a), read_des(stop2, b)),
{
    lemma_case_step(a, b);
    if a.len() > 0 {
        assert(to_upper(a[0]) == to_upper(b[0]));
    }
    if a.len() > 1 {
        assert(to_upper(a[1]) == to_upper(b[1]));
    }
}

/// The texts agree but for the case of letters, or there is none.
pub open spec fn is_same_text_but_case(a: Option<Seq<u8>>, b: Option<Seq<u8>>) -> bool {
    match (a, b) {
        (Some(text), Some(text2)) => is_same_but_case(text, text2),
        (None, None) => true,
        _ => false,
    }
}

proof fn lemma_read_text_case(stop: u8, a: Seq<u8>, stop2: u8, b: Seq<u8>)
    requires
        to_upper(stop) == to_upper(stop2),
        is_same_but_case(a, b),
    ensures
        match (read_text(stop, a), read_text(stop2, b)) {
            (Some(x), Some(y)) => {
                &&& is_same_text_but_case(x.value, y.value)
                &&& to_upper(x.stop) == to_upper(y.stop)
                &&& is_same_but_case(x.rest, y.rest)
            },
            (None, None) => true,
            _ => false,
        },
{
    lemma_text_case(a, b, seq![], seq![]);
    if let Some(text) = scan_text(a, seq![]) {
        lemma_case_step(text.value, scan_text(b, seq![])->0.value);
    }
}

/// What is known of two servers agrees, but for the case of the letters in the text that one of
/// the extensions carries.
pub open spec fn is_same_but_text(a: EhloReply, b: EhloReply) -> bool {
    &&& is_same_text_but_case(a.no_soliciting, b.no_soliciting)
    &&& (EhloReply { no_soliciting: None, ..a }) == (EhloReply { no_soliciting: None, ..b })
}

proof fn lemma_parameters_case(
    known: EhloReply,
    word: Seq<u8>,
    stop: u8,
    a: Seq<u8>,
    stop2: u8,
    b: Seq<u8>,
)
    requires
        to_upper(stop) == to_upper(stop2),
        is_same_but_case(a, b),
    ensures
        match (
            read_parameters(known, word, stop, a),
            read_parameters(known, word, stop2, b),
        ) {
            (Some(x), Some(y)) => {
                &&& is_same_but_text(x.value, y.value)
                &&& to_upper(x.stop) == to_upper(y.stop)
                &&& is_same_but_case(x.rest, y.rest)
            },
            (None, None) => true,
            _ => false,
        },
{
    lemma_read_des_case(stop, a, stop2, b);
    lemma_mechanisms_case(stop, a, stop2, b, known.auth_mechanisms);
    lemma_read_number_case(stop, a, stop2, b);
    if let Some(number) = read_number(stop, a) {
        let number2 = read_number(stop2, b)->0;
        lemma_read_number_case(number.stop, number.rest, number2.stop, number2.rest);
    }
    lemma_read_priority_case(stop, a, stop2, b);
    lemma_read_text_case(stop, a, stop2, b);
}

/// The case of letters on a line does not count: two lines that differ in it alone tell the same,
/// but for the text of NO-SOLICITING, whose letters are kept as they are.
pub proof fn law_case_does_not_count(known: EhloReply, a: Seq<u8>, b: Seq<u8>)
    requires
        is_same_but_case(a, b),
    ensures
        match (read_extension(known, a), read_extension(known, b)) {
            (Some((x, _)), Some((y, _))) => is_same_but_text(x, y),
            (None, None) => true,
            _ => false,
        },
{
    lemma_keyword_case(a, b, seq![]);
    if let Some(word) = scan_keyword(a, seq![]) {
        let word2 = scan_keyword(b, seq![])->0;
        lemma_parameters_case(known, word.value, word.stop, word.rest, word2.stop, word2.rest);
        if let Some(told) = read_parameters(known, word.value, word.stop, word.rest) {
            let told2 = read_parameters(known, word2.value, word2.stop, word2.rest)->0;
            lemma_after_line_case(told.rest, told2.rest);
        }
    }
}

} // verus!
