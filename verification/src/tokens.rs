//! Keywords as tokens. A keyword has at most 16 characters, and is held in one integer whose bytes,
//! from the lowest up, are its characters in upper case.

use crate::ascii::{is_digit, HYPHEN};
use crate::text::{bytes_of, lemma_bytes_of_ascii};
use vstd::arithmetic::power2::{lemma2_to64, lemma_pow2_adds, pow2};
use vstd::prelude::*;

verus! {

pub const _8BITMIME: u128 = 0x454d494d54494238;

pub const ATRN: u128 = 0x4e525441;

pub const AUTH: u128 = 0x48545541;

pub const BINARYMIME: u128 = 0x454d494d5952414e4942;

pub const BURL: u128 = 0x4c525542;

pub const CHECKPOINT: u128 = 0x544e494f504b43454843;

pub const CHUNKING: u128 = 0x474e494b4e554843;

pub const CONNEG: u128 = 0x47454e4e4f43;

pub const CONPERM: u128 = 0x4d5245504e4f43;

pub const DELIVERBY: u128 = 0x5942524556494c4544;

pub const DSN: u128 = 0x4e5344;

pub const ENHANCEDSTATUSCO: u128 = 0x4f435355544154534445434e41484e45;

pub const ETRN: u128 = 0x4e525445;

pub const EXPN: u128 = 0x4e505845;

pub const FUTURERELEASE: u128 = 0x455341454c4552455255545546;

pub const HELP: u128 = 0x504c4548;

pub const MT_PRIORITY: u128 = 0x595449524f4952502d544d;

pub const MTRK: u128 = 0x4b52544d;

pub const NO_SOLICITING: u128 = 0x474e49544943494c4f532d4f4e;

pub const ONEX: u128 = 0x58454e4f;

pub const PIPELINING: u128 = 0x474e494e494c45504950;

pub const REQUIRETLS: u128 = 0x534c5445524955514552;

pub const RRVS: u128 = 0x53565252;

pub const SIZE: u128 = 0x455a4953;

pub const SMTPUTF8: u128 = 0x3846545550544d53;

pub const STARTTLS: u128 = 0x534c545452415453;

pub const VERB: u128 = 0x42524556;

pub const STANAG4406: u128 = 0x3630343447414e415453;

pub const NSEP: u128 = 0x5045534e;

/// The number whose bytes, from the lowest up, are those of `word` from position `i` on.
pub open spec fn packed_from(word: Seq<u8>, i: int) -> nat
    decreases word.len() - i,
{
    if 0 <= i < word.len() {
        word[i] as nat + 256 * packed_from(word, i + 1)
    } else {
        0
    }
}

/// The token of a word.
pub open spec fn packed(word: Seq<u8>) -> nat {
    packed_from(word, 0)
}

/// Keywords are made of letters, digits and hyphens.
#[verifier::allow_in_spec]
pub fn is_keyword_char(byte: u8) -> bool
    returns
        0x41 <= byte <= 0x5a || 0x61 <= byte <= 0x7a || is_digit(byte) || byte == HYPHEN,
{
    (0x41 <= byte && byte <= 0x5a) || (0x61 <= byte && byte <= 0x7a) || is_digit(byte) || byte
        == HYPHEN
}

/// How many characters a token can hold.
pub const MAX_KEYWORD_LENGTH: usize = 16;

/// A word that a token can hold: no byte of it is zero.
pub open spec fn is_word(word: Seq<u8>) -> bool {
    &&& word.len() <= MAX_KEYWORD_LENGTH
    &&& forall|i: int| 0 <= i < word.len() ==> #[trigger] word[i] != 0
}

/// Two words whose tokens agree are the same word.
pub proof fn lemma_packed_injective(a: Seq<u8>, b: Seq<u8>, i: int)
    requires
        is_word(a),
        is_word(b),
        0 <= i,
        packed_from(a, i) == packed_from(b, i),
        i <= a.len(),
        i <= b.len(),
    ensures
        a.len() == b.len(),
        forall|j: int| i <= j < a.len() ==> a[j] == b[j],
    decreases a.len() - i,
{
    if i < a.len() && i < b.len() {
        let x = packed_from(a, i + 1);
        let y = packed_from(b, i + 1);
        assert(a[i] + 256 * x == b[i] + 256 * y);
        assert(a[i] == b[i] && x == y);
        lemma_packed_injective(a, b, i + 1);
        assert forall|j: int| i <= j < a.len() implies a[j] == b[j] by {
            if j > i {
                assert(i + 1 <= j);
            }
        }
    }
}

/// A word is `keyword` exactly where their tokens agree.
proof fn lemma_same_word(word: Seq<u8>, keyword: Seq<u8>)
    requires
        is_word(word),
        is_word(keyword),
    ensures
        (packed(word) == packed(keyword)) == (word == keyword),
{
    if packed(word) == packed(keyword) {
        lemma_packed_injective(word, keyword, 0);
        assert(word =~= keyword);
    }
}

/// The constant `token` is the token of `keyword`.
pub open spec fn is_token(token: u128, keyword: &str) -> bool {
    is_word(bytes_of(keyword)) && packed(bytes_of(keyword)) == token
}

proof fn lemma_tokens_8_to_b()
    ensures
        is_token(_8BITMIME, "8BITMIME"),
        is_token(ATRN, "ATRN"),
        is_token(AUTH, "AUTH"),
        is_token(BINARYMIME, "BINARYMIME"),
        is_token(BURL, "BURL"),
{
    assert(is_token(_8BITMIME, "8BITMIME")) by {
        reveal_strlit("8BITMIME");
        lemma_bytes_of_ascii("8BITMIME");
        reveal_with_fuel(packed_from, 9);
    }
    assert(is_token(ATRN, "ATRN")) by {
        reveal_strlit("ATRN");
        lemma_bytes_of_ascii("ATRN");
        reveal_with_fuel(packed_from, 5);
    }
    assert(is_token(AUTH, "AUTH")) by {
        reveal_strlit("AUTH");
        lemma_bytes_of_ascii("AUTH");
        reveal_with_fuel(packed_from, 5);
    }
    assert(is_token(BINARYMIME, "BINARYMIME")) by {
        reveal_strlit("BINARYMIME");
        lemma_bytes_of_ascii("BINARYMIME");
        reveal_with_fuel(packed_from, 11);
    }
    assert(is_token(BURL, "BURL")) by {
        reveal_strlit("BURL");
        lemma_bytes_of_ascii("BURL");
        reveal_with_fuel(packed_from, 5);
    }
}

proof fn lemma_tokens_c_to_d()
    ensures
        is_token(CHECKPOINT, "CHECKPOINT"),
        is_token(CHUNKING, "CHUNKING"),
        is_token(CONNEG, "CONNEG"),
        is_token(CONPERM, "CONPERM"),
        is_token(DELIVERBY, "DELIVERBY"),
        is_token(DSN, "DSN"),
{
    assert(is_token(CHECKPOINT, "CHECKPOINT")) by {
        reveal_strlit("CHECKPOINT");
        lemma_bytes_of_ascii("CHECKPOINT");
        reveal_with_fuel(packed_from, 11);
    }
    assert(is_token(CHUNKING, "CHUNKING")) by {
        reveal_strlit("CHUNKING");
        lemma_bytes_of_ascii("CHUNKING");
        reveal_with_fuel(packed_from, 9);
    }
    assert(is_token(CONNEG, "CONNEG")) by {
        reveal_strlit("CONNEG");
        lemma_bytes_of_ascii("CONNEG");
        reveal_with_fuel(packed_from, 7);
    }
    assert(is_token(CONPERM, "CONPERM")) by {
        reveal_strlit("CONPERM");
        lemma_bytes_of_ascii("CONPERM");
        reveal_with_fuel(packed_from, 8);
    }
    assert(is_token(DELIVERBY, "DELIVERBY")) by {
        reveal_strlit("DELIVERBY");
        lemma_bytes_of_ascii("DELIVERBY");
        reveal_with_fuel(packed_from, 10);
    }
    assert(is_token(DSN, "DSN")) by {
        reveal_strlit("DSN");
        lemma_bytes_of_ascii("DSN");
        reveal_with_fuel(packed_from, 4);
    }
}

proof fn lemma_tokens_e_to_h()
    ensures
        is_token(ETRN, "ETRN"),
        is_token(EXPN, "EXPN"),
        is_token(FUTURERELEASE, "FUTURERELEASE"),
        is_token(HELP, "HELP"),
{
    assert(is_token(ETRN, "ETRN")) by {
        reveal_strlit("ETRN");
        lemma_bytes_of_ascii("ETRN");
        reveal_with_fuel(packed_from, 5);
    }
    assert(is_token(EXPN, "EXPN")) by {
        reveal_strlit("EXPN");
        lemma_bytes_of_ascii("EXPN");
        reveal_with_fuel(packed_from, 5);
    }
    assert(is_token(FUTURERELEASE, "FUTURERELEASE")) by {
        reveal_strlit("FUTURERELEASE");
        lemma_bytes_of_ascii("FUTURERELEASE");
        reveal_with_fuel(packed_from, 14);
    }
    assert(is_token(HELP, "HELP")) by {
        reveal_strlit("HELP");
        lemma_bytes_of_ascii("HELP");
        reveal_with_fuel(packed_from, 5);
    }
}

proof fn lemma_tokens_m_to_p()
    ensures
        is_token(MT_PRIORITY, "MT-PRIORITY"),
        is_token(MTRK, "MTRK"),
        is_token(NO_SOLICITING, "NO-SOLICITING"),
        is_token(ONEX, "ONEX"),
        is_token(PIPELINING, "PIPELINING"),
{
    assert(is_token(MT_PRIORITY, "MT-PRIORITY")) by {
        reveal_strlit("MT-PRIORITY");
        lemma_bytes_of_ascii("MT-PRIORITY");
        reveal_with_fuel(packed_from, 12);
    }
    assert(is_token(MTRK, "MTRK")) by {
        reveal_strlit("MTRK");
        lemma_bytes_of_ascii("MTRK");
        reveal_with_fuel(packed_from, 5);
    }
    assert(is_token(NO_SOLICITING, "NO-SOLICITING")) by {
        reveal_strlit("NO-SOLICITING");
        lemma_bytes_of_ascii("NO-SOLICITING");
        reveal_with_fuel(packed_from, 14);
    }
    assert(is_token(ONEX, "ONEX")) by {
        reveal_strlit("ONEX");
        lemma_bytes_of_ascii("ONEX");
        reveal_with_fuel(packed_from, 5);
    }
    assert(is_token(PIPELINING, "PIPELINING")) by {
        reveal_strlit("PIPELINING");
        lemma_bytes_of_ascii("PIPELINING");
        reveal_with_fuel(packed_from, 11);
    }
}

proof fn lemma_tokens_r_to_v()
    ensures
        is_token(REQUIRETLS, "REQUIRETLS"),
        is_token(RRVS, "RRVS"),
        is_token(SIZE, "SIZE"),
        is_token(SMTPUTF8, "SMTPUTF8"),
        is_token(STARTTLS, "STARTTLS"),
        is_token(VERB, "VERB"),
{
    assert(is_token(REQUIRETLS, "REQUIRETLS")) by {
        reveal_strlit("REQUIRETLS");
        lemma_bytes_of_ascii("REQUIRETLS");
        reveal_with_fuel(packed_from, 11);
    }
    assert(is_token(RRVS, "RRVS")) by {
        reveal_strlit("RRVS");
        lemma_bytes_of_ascii("RRVS");
        reveal_with_fuel(packed_from, 5);
    }
    assert(is_token(SIZE, "SIZE")) by {
        reveal_strlit("SIZE");
        lemma_bytes_of_ascii("SIZE");
        reveal_with_fuel(packed_from, 5);
    }
    assert(is_token(SMTPUTF8, "SMTPUTF8")) by {
        reveal_strlit("SMTPUTF8");
        lemma_bytes_of_ascii("SMTPUTF8");
        reveal_with_fuel(packed_from, 9);
    }
    assert(is_token(STARTTLS, "STARTTLS")) by {
        reveal_strlit("STARTTLS");
        lemma_bytes_of_ascii("STARTTLS");
        reveal_with_fuel(packed_from, 9);
    }
    assert(is_token(VERB, "VERB")) by {
        reveal_strlit("VERB");
        lemma_bytes_of_ascii("VERB");
        reveal_with_fuel(packed_from, 5);
    }
}

proof fn lemma_tokens_enhanced_status_codes()
    ensures
        is_token(ENHANCEDSTATUSCO, "ENHANCEDSTATUSCO"),
{
    assert(is_token(ENHANCEDSTATUSCO, "ENHANCEDSTATUSCO")) by {
        reveal_strlit("ENHANCEDSTATUSCO");
        lemma_bytes_of_ascii("ENHANCEDSTATUSCO");
        reveal_with_fuel(packed_from, 17);
    }
}

proof fn lemma_tokens_of_priorities()
    ensures
        is_token(STANAG4406, "STANAG4406"),
        is_token(NSEP, "NSEP"),
{
    assert(is_token(STANAG4406, "STANAG4406")) by {
        reveal_strlit("STANAG4406");
        lemma_bytes_of_ascii("STANAG4406");
        reveal_with_fuel(packed_from, 11);
    }
    assert(is_token(NSEP, "NSEP")) by {
        reveal_strlit("NSEP");
        lemma_bytes_of_ascii("NSEP");
        reveal_with_fuel(packed_from, 5);
    }
}

/// A word has the token of a keyword exactly where it is that keyword.
pub proof fn lemma_tokens(word: Seq<u8>)
    requires
        is_word(word),
    ensures
        (packed(word) == _8BITMIME) == (word == bytes_of("8BITMIME")),
        (packed(word) == ATRN) == (word == bytes_of("ATRN")),
        (packed(word) == AUTH) == (word == bytes_of("AUTH")),
        (packed(word) == BINARYMIME) == (word == bytes_of("BINARYMIME")),
        (packed(word) == BURL) == (word == bytes_of("BURL")),
        (packed(word) == CHECKPOINT) == (word == bytes_of("CHECKPOINT")),
        (packed(word) == CHUNKING) == (word == bytes_of("CHUNKING")),
        (packed(word) == CONNEG) == (word == bytes_of("CONNEG")),
        (packed(word) == CONPERM) == (word == bytes_of("CONPERM")),
        (packed(word) == DELIVERBY) == (word == bytes_of("DELIVERBY")),
        (packed(word) == DSN) == (word == bytes_of("DSN")),
        (packed(word) == ENHANCEDSTATUSCO) == (word == bytes_of("ENHANCEDSTATUSCO")),
        (packed(word) == ETRN) == (word == bytes_of("ETRN")),
        (packed(word) == EXPN) == (word == bytes_of("EXPN")),
        (packed(word) == FUTURERELEASE) == (word == bytes_of("FUTURERELEASE")),
        (packed(word) == HELP) == (word == bytes_of("HELP")),
        (packed(word) == MT_PRIORITY) == (word == bytes_of("MT-PRIORITY")),
        (packed(word) == MTRK) == (word == bytes_of("MTRK")),
        (packed(word) == NO_SOLICITING) == (word == bytes_of("NO-SOLICITING")),
        (packed(word) == ONEX) == (word == bytes_of("ONEX")),
        (packed(word) == PIPELINING) == (word == bytes_of("PIPELINING")),
        (packed(word) == REQUIRETLS) == (word == bytes_of("REQUIRETLS")),
        (packed(word) == RRVS) == (word == bytes_of("RRVS")),
        (packed(word) == SIZE) == (word == bytes_of("SIZE")),
        (packed(word) == SMTPUTF8) == (word == bytes_of("SMTPUTF8")),
        (packed(word) == STARTTLS) == (word == bytes_of("STARTTLS")),
        (packed(word) == VERB) == (word == bytes_of("VERB")),
        (packed(word) == STANAG4406) == (word == bytes_of("STANAG4406")),
        (packed(word) == NSEP) == (word == bytes_of("NSEP")),
{
    lemma_tokens_8_to_b();
    lemma_tokens_c_to_d();
    lemma_tokens_e_to_h();
    lemma_tokens_m_to_p();
    lemma_tokens_r_to_v();
    lemma_tokens_enhanced_status_codes();
    lemma_tokens_of_priorities();
    lemma_same_word(word, bytes_of("8BITMIME"));
    lemma_same_word(word, bytes_of("ATRN"));
    lemma_same_word(word, bytes_of("AUTH"));
    lemma_same_word(word, bytes_of("BINARYMIME"));
    lemma_same_word(word, bytes_of("BURL"));
    lemma_same_word(word, bytes_of("CHECKPOINT"));
    lemma_same_word(word, bytes_of("CHUNKING"));
    lemma_same_word(word, bytes_of("CONNEG"));
    lemma_same_word(word, bytes_of("CONPERM"));
    lemma_same_word(word, bytes_of("DELIVERBY"));
    lemma_same_word(word, bytes_of("DSN"));
    lemma_same_word(word, bytes_of("ENHANCEDSTATUSCO"));
    lemma_same_word(word, bytes_of("ETRN"));
    lemma_same_word(word, bytes_of("EXPN"));
    lemma_same_word(word, bytes_of("FUTURERELEASE"));
    lemma_same_word(word, bytes_of("HELP"));
    lemma_same_word(word, bytes_of("MT-PRIORITY"));
    lemma_same_word(word, bytes_of("MTRK"));
    lemma_same_word(word, bytes_of("NO-SOLICITING"));
    lemma_same_word(word, bytes_of("ONEX"));
    lemma_same_word(word, bytes_of("PIPELINING"));
    lemma_same_word(word, bytes_of("REQUIRETLS"));
    lemma_same_word(word, bytes_of("RRVS"));
    lemma_same_word(word, bytes_of("SIZE"));
    lemma_same_word(word, bytes_of("SMTPUTF8"));
    lemma_same_word(word, bytes_of("STARTTLS"));
    lemma_same_word(word, bytes_of("VERB"));
    lemma_same_word(word, bytes_of("STANAG4406"));
    lemma_same_word(word, bytes_of("NSEP"));
}

/// What a character adds to the token of the word that it is put behind.
pub proof fn lemma_packed_push(word: Seq<u8>, byte: u8, i: int)
    requires
        0 <= i <= word.len(),
    ensures
        packed_from(word.push(byte), i) == packed_from(word, i) + byte * pow2(
            8 * (word.len() - i) as nat,
        ),
        packed_from(word, i) < pow2(8 * (word.len() - i) as nat),
    decreases word.len() - i,
{
    if i == word.len() {
        lemma2_to64();
        assert(packed_from(word.push(byte), i + 1) == 0);
        assert(byte * pow2(0) == byte) by (nonlinear_arith)
            requires
                pow2(0) == 1,
        ;
    } else {
        lemma_packed_push(word, byte, i + 1);
        let n = 8 * (word.len() - i - 1) as nat;
        lemma_pow2_adds(8, n);
        lemma2_to64();
        assert(pow2(8 * (word.len() - i) as nat) == 256 * pow2(n));
        assert(word.push(byte)[i] == word[i]);
        assert(256 * (byte * pow2(n)) == byte * (256 * pow2(n))) by (nonlinear_arith);
    }
}

/// Shifting a byte left by some bytes multiplies it by that power of 256.
proof fn lemma_shifted_byte(byte: u128, shift: u32)
    requires
        byte < 256,
        shift < 128,
        shift % 8 == 0,
    ensures
        byte << shift == byte * pow2(shift as nat),
    decreases shift,
{
    lemma2_to64();
    if shift == 0 {
        assert(byte << 0u32 == byte) by (bit_vector);
    } else {
        let less = (shift - 8) as u32;
        lemma_shifted_byte(byte, less);
        lemma_pow2_adds(8, less as nat);
        assert(byte << shift == (byte << less) * 256) by (bit_vector)
            requires
                byte < 256,
                8 <= shift < 128,
                less == shift - 8,
                shift % 8 == 0,
        ;
        assert((byte * pow2(less as nat)) * 256 == byte * (256 * pow2(less as nat)))
            by (nonlinear_arith);
    }
}

/// Writes `byte` behind the word of `token`, which has `length` characters.
pub(crate) fn push_token(
    token: u128,
    length: usize,
    byte: u8,
    Ghost(word): Ghost<Seq<u8>>,
) -> (result: u128)
    requires
        length < MAX_KEYWORD_LENGTH,
        word.len() == length,
        token == packed(word),
    ensures
        result == packed(word.push(byte)),
{
    let shift: u32 = 8 * length as u32;
    proof {
        lemma_packed_push(word, byte, 0);
        lemma_shifted_byte(1, shift);
        lemma_shifted_byte(byte as u128, shift);
    }
    assert(token | ((byte as u128) << shift) == token + ((byte as u128) << shift)) by (bit_vector)
        requires
            token < 1u128 << shift,
            shift < 128,
            shift % 8 == 0,
    ;
    token | ((byte as u128) << shift)
}

} // verus!
