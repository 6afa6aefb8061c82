//! What a server can offer: the extensions of SMTP, one bit each, and the SASL mechanisms, one bit
//! each.

use crate::ascii::to_upper;
use crate::text::bytes_of;
use crate::tokens;
use crate::tokens::{is_word, lemma_tokens, packed};
use vstd::prelude::*;

verus! {

pub const EXT_8BIT_MIME: u32 = 0x00000001;

pub const EXT_ATRN: u32 = 0x00000002;

pub const EXT_AUTH: u32 = 0x00000004;

pub const EXT_BINARY_MIME: u32 = 0x00000008;

pub const EXT_BURL: u32 = 0x00000010;

pub const EXT_CHECKPOINT: u32 = 0x00000020;

pub const EXT_CHUNKING: u32 = 0x00000040;

pub const EXT_CONNEG: u32 = 0x00000080;

pub const EXT_CONPERM: u32 = 0x00000100;

pub const EXT_DELIVER_BY: u32 = 0x00000200;

pub const EXT_DSN: u32 = 0x00000400;

pub const EXT_ENHANCED_STATUS_CODES: u32 = 0x00000800;

pub const EXT_ETRN: u32 = 0x00001000;

pub const EXT_EXPN: u32 = 0x00002000;

pub const EXT_FUTURE_RELEASE: u32 = 0x00004000;

pub const EXT_HELP: u32 = 0x00008000;

pub const EXT_MT_PRIORITY: u32 = 0x00010000;

pub const EXT_MTRK: u32 = 0x00020000;

pub const EXT_NO_SOLICITING: u32 = 0x00040000;

pub const EXT_ONEX: u32 = 0x00080000;

pub const EXT_PIPELINING: u32 = 0x00100000;

pub const EXT_REQUIRE_TLS: u32 = 0x00200000;

pub const EXT_RRVS: u32 = 0x00400000;

pub const EXT_SIZE: u32 = 0x00800000;

pub const EXT_SMTP_UTF8: u32 = 0x01000000;

pub const EXT_START_TLS: u32 = 0x02000000;

pub const EXT_VERB: u32 = 0x04000000;

pub const AUTH_SCRAM_SHA_256_PLUS: u64 = 0x0000000000000001;

pub const AUTH_SCRAM_SHA_256: u64 = 0x0000000000000002;

pub const AUTH_SCRAM_SHA_1_PLUS: u64 = 0x0000000000000004;

pub const AUTH_SCRAM_SHA_1: u64 = 0x0000000000000008;

pub const AUTH_OAUTHBEARER: u64 = 0x0000000000000010;

pub const AUTH_XOAUTH: u64 = 0x0000000000000020;

pub const AUTH_XOAUTH2: u64 = 0x0000000000000040;

pub const AUTH_9798_M_DSA_SHA1: u64 = 0x0000000000000080;

pub const AUTH_9798_M_ECDSA_SHA1: u64 = 0x0000000000000100;

pub const AUTH_9798_M_RSA_SHA1_ENC: u64 = 0x0000000000000200;

pub const AUTH_9798_U_DSA_SHA1: u64 = 0x0000000000000400;

pub const AUTH_9798_U_ECDSA_SHA1: u64 = 0x0000000000000800;

pub const AUTH_9798_U_RSA_SHA1_ENC: u64 = 0x0000000000001000;

pub const AUTH_EAP_AES128: u64 = 0x0000000000002000;

pub const AUTH_EAP_AES128_PLUS: u64 = 0x0000000000004000;

pub const AUTH_ECDH_X25519_CHALLENGE: u64 = 0x0000000000008000;

pub const AUTH_ECDSA_NIST256P_CHALLENGE: u64 = 0x0000000000010000;

pub const AUTH_EXTERNAL: u64 = 0x0000000000020000;

pub const AUTH_GS2_KRB5: u64 = 0x0000000000040000;

pub const AUTH_GS2_KRB5_PLUS: u64 = 0x0000000000080000;

pub const AUTH_GSS_SPNEGO: u64 = 0x0000000000100000;

pub const AUTH_GSSAPI: u64 = 0x0000000000200000;

pub const AUTH_KERBEROS_V4: u64 = 0x0000000000400000;

pub const AUTH_KERBEROS_V5: u64 = 0x0000000000800000;

pub const AUTH_NMAS_SAMBA_AUTH: u64 = 0x0000000001000000;

pub const AUTH_NMAS_AUTHEN: u64 = 0x0000000002000000;

pub const AUTH_NMAS_LOGIN: u64 = 0x0000000004000000;

pub const AUTH_NTLM: u64 = 0x0000000008000000;

pub const AUTH_OAUTH10A: u64 = 0x0000000010000000;

pub const AUTH_OPENID20: u64 = 0x0000000020000000;

pub const AUTH_OTP: u64 = 0x0000000040000000;

pub const AUTH_SAML20: u64 = 0x0000000080000000;

pub const AUTH_SECURID: u64 = 0x0000000100000000;

pub const AUTH_SKEY: u64 = 0x0000000200000000;

pub const AUTH_SPNEGO: u64 = 0x0000000400000000;

pub const AUTH_SPNEGO_PLUS: u64 = 0x0000000800000000;

pub const AUTH_SXOVER_PLUS: u64 = 0x0000001000000000;

pub const AUTH_CRAM_MD5: u64 = 0x0000002000000000;

pub const AUTH_DIGEST_MD5: u64 = 0x0000004000000000;

pub const AUTH_LOGIN: u64 = 0x0000008000000000;

pub const AUTH_PLAIN: u64 = 0x0000010000000000;

pub const AUTH_ANONYMOUS: u64 = 0x0000020000000000;

/// The bit of the extension that the keyword `word` announces; no bit for other words, nor for the
/// start of the one keyword that is longer than a token.
pub open spec fn extension_bit(word: Seq<u8>) -> u32 {
    if word == bytes_of("8BITMIME") {
        EXT_8BIT_MIME
    } else if word == bytes_of("ATRN") {
        EXT_ATRN
    } else if word == bytes_of("AUTH") {
        EXT_AUTH
    } else if word == bytes_of("BINARYMIME") {
        EXT_BINARY_MIME
    } else if word == bytes_of("BURL") {
        EXT_BURL
    } else if word == bytes_of("CHECKPOINT") {
        EXT_CHECKPOINT
    } else if word == bytes_of("CHUNKING") {
        EXT_CHUNKING
    } else if word == bytes_of("CONNEG") {
        EXT_CONNEG
    } else if word == bytes_of("CONPERM") {
        EXT_CONPERM
    } else if word == bytes_of("DELIVERBY") {
        EXT_DELIVER_BY
    } else if word == bytes_of("DSN") {
        EXT_DSN
    } else if word == bytes_of("ETRN") {
        EXT_ETRN
    } else if word == bytes_of("EXPN") {
        EXT_EXPN
    } else if word == bytes_of("FUTURERELEASE") {
        EXT_FUTURE_RELEASE
    } else if word == bytes_of("HELP") {
        EXT_HELP
    } else if word == bytes_of("MT-PRIORITY") {
        EXT_MT_PRIORITY
    } else if word == bytes_of("MTRK") {
        EXT_MTRK
    } else if word == bytes_of("NO-SOLICITING") {
        EXT_NO_SOLICITING
    } else if word == bytes_of("ONEX") {
        EXT_ONEX
    } else if word == bytes_of("PIPELINING") {
        EXT_PIPELINING
    } else if word == bytes_of("REQUIRETLS") {
        EXT_REQUIRE_TLS
    } else if word == bytes_of("RRVS") {
        EXT_RRVS
    } else if word == bytes_of("SIZE") {
        EXT_SIZE
    } else if word == bytes_of("SMTPUTF8") {
        EXT_SMTP_UTF8
    } else if word == bytes_of("STARTTLS") {
        EXT_START_TLS
    } else if word == bytes_of("VERB") {
        EXT_VERB
    } else {
        0
    }
}

/// The bit of the extension that the keyword with the token `token` announces.
pub(crate) fn find_extension(token: u128, Ghost(word): Ghost<Seq<u8>>) -> (bit: u32)
    requires
        is_word(word),
        token == packed(word),
    ensures
        bit == extension_bit(word),
{
    proof {
        lemma_tokens(word);
    }
    if token == tokens::_8BITMIME {
        EXT_8BIT_MIME
    } else if token == tokens::ATRN {
        EXT_ATRN
    } else if token == tokens::AUTH {
        EXT_AUTH
    } else if token == tokens::BINARYMIME {
        EXT_BINARY_MIME
    } else if token == tokens::BURL {
        EXT_BURL
    } else if token == tokens::CHECKPOINT {
        EXT_CHECKPOINT
    } else if token == tokens::CHUNKING {
        EXT_CHUNKING
    } else if token == tokens::CONNEG {
        EXT_CONNEG
    } else if token == tokens::CONPERM {
        EXT_CONPERM
    } else if token == tokens::DELIVERBY {
        EXT_DELIVER_BY
    } else if token == tokens::DSN {
        EXT_DSN
    } else if token == tokens::ETRN {
        EXT_ETRN
    } else if token == tokens::EXPN {
        EXT_EXPN
    } else if token == tokens::FUTURERELEASE {
        EXT_FUTURE_RELEASE
    } else if token == tokens::HELP {
        EXT_HELP
    } else if token == tokens::MT_PRIORITY {
        EXT_MT_PRIORITY
    } else if token == tokens::MTRK {
        EXT_MTRK
    } else if token == tokens::NO_SOLICITING {
        EXT_NO_SOLICITING
    } else if token == tokens::ONEX {
        EXT_ONEX
    } else if token == tokens::PIPELINING {
        EXT_PIPELINING
    } else if token == tokens::REQUIRETLS {
        EXT_REQUIRE_TLS
    } else if token == tokens::RRVS {
        EXT_RRVS
    } else if token == tokens::SIZE {
        EXT_SIZE
    } else if token == tokens::SMTPUTF8 {
        EXT_SMTP_UTF8
    } else if token == tokens::STARTTLS {
        EXT_START_TLS
    } else if token == tokens::VERB {
        EXT_VERB
    } else {
        0
    }
}

/// The bytes with their lower-case letters raised to upper case.
pub open spec fn uppercase(bytes: Seq<u8>) -> Seq<u8> {
    bytes.map_values(|byte: u8| to_upper(byte))
}

/// The bit of the SASL mechanism whose name, in upper case, is `name`; none for other names.
pub open spec fn mechanism_bit(name: Seq<u8>) -> Option<u64> {
    if name.len() == 0 {
        None
    } else if name == bytes_of("SCRAM-SHA-256-PLUS") {
        Some(AUTH_SCRAM_SHA_256_PLUS)
    } else if name == bytes_of("SCRAM-SHA-256") {
        Some(AUTH_SCRAM_SHA_256)
    } else if name == bytes_of("SCRAM-SHA-1-PLUS") {
        Some(AUTH_SCRAM_SHA_1_PLUS)
    } else if name == bytes_of("SCRAM-SHA-1") {
        Some(AUTH_SCRAM_SHA_1)
    } else if name == bytes_of("OAUTHBEARER") {
        Some(AUTH_OAUTHBEARER)
    } else if name == bytes_of("XOAUTH") {
        Some(AUTH_XOAUTH)
    } else if name == bytes_of("XOAUTH2") {
        Some(AUTH_XOAUTH2)
    } else if name == bytes_of("9798-M-DSA-SHA1") {
        Some(AUTH_9798_M_DSA_SHA1)
    } else if name == bytes_of("9798-M-ECDSA-SHA1") {
        Some(AUTH_9798_M_ECDSA_SHA1)
    } else if name == bytes_of("9798-M-RSA-SHA1-ENC") {
        Some(AUTH_9798_M_RSA_SHA1_ENC)
    } else if name == bytes_of("9798-U-DSA-SHA1") {
        Some(AUTH_9798_U_DSA_SHA1)
    } else if name == bytes_of("9798-U-ECDSA-SHA1") {
        Some(AUTH_9798_U_ECDSA_SHA1)
    } else if name == bytes_of("9798-U-RSA-SHA1-ENC") {
        Some(AUTH_9798_U_RSA_SHA1_ENC)
    } else if name == bytes_of("EAP-AES128") {
        Some(AUTH_EAP_AES128)
    } else if name == bytes_of("EAP-AES128-PLUS") {
        Some(AUTH_EAP_AES128_PLUS)
    } else if name == bytes_of("ECDH-X25519-CHALLENGE") {
        Some(AUTH_ECDH_X25519_CHALLENGE)
    } else if name == bytes_of("ECDSA-NIST256P-CHALLENGE") {
        Some(AUTH_ECDSA_NIST256P_CHALLENGE)
    } else if name == bytes_of("EXTERNAL") {
        Some(AUTH_EXTERNAL)
    } else if name == bytes_of("GS2-KRB5") {
        Some(AUTH_GS2_KRB5)
    } else if name == bytes_of("GS2-KRB5-PLUS") {
        Some(AUTH_GS2_KRB5_PLUS)
    } else if name == bytes_of("GSS-SPNEGO") {
        Some(AUTH_GSS_SPNEGO)
    } else if name == bytes_of("GSSAPI") {
        Some(AUTH_GSSAPI)
    } else if name == bytes_of("KERBEROS_V4") {
        Some(AUTH_KERBEROS_V4)
    } else if name == bytes_of("KERBEROS_V5") {
        Some(AUTH_KERBEROS_V5)
    } else if name == bytes_of("NMAS-SAMBA-AUTH") {
        Some(AUTH_NMAS_SAMBA_AUTH)
    } else if name == bytes_of("NMAS-AUTHEN") {
        Some(AUTH_NMAS_AUTHEN)
    } else if name == bytes_of("NMAS-LOGIN") {
        Some(AUTH_NMAS_LOGIN)
    } else if name == bytes_of("NTLM") {
        Some(AUTH_NTLM)
    } else if name == bytes_of("OAUTH10A") {
        Some(AUTH_OAUTH10A)
    } else if name == bytes_of("OPENID20") {
        Some(AUTH_OPENID20)
    } else if name == bytes_of("OTP") {
        Some(AUTH_OTP)
    } else if name == bytes_of("SAML20") {
        Some(AUTH_SAML20)
    } else if name == bytes_of("SECURID") {
        Some(AUTH_SECURID)
    } else if name == bytes_of("SKEY") {
        Some(AUTH_SKEY)
    } else if name == bytes_of("SPNEGO") {
        Some(AUTH_SPNEGO)
    } else if name == bytes_of("SPNEGO-PLUS") {
        Some(AUTH_SPNEGO_PLUS)
    } else if name == bytes_of("SXOVER-PLUS") {
        Some(AUTH_SXOVER_PLUS)
    } else if name == bytes_of("CRAM-MD5") {
        Some(AUTH_CRAM_MD5)
    } else if name == bytes_of("DIGEST-MD5") {
        Some(AUTH_DIGEST_MD5)
    } else if name == bytes_of("LOGIN") {
        Some(AUTH_LOGIN)
    } else if name == bytes_of("PLAIN") {
        Some(AUTH_PLAIN)
    } else if name == bytes_of("ANONYMOUS") {
        Some(AUTH_ANONYMOUS)
    } else {
        None
    }
}

/// Whether `name` is `expected`, where the case of letters in `name` does not count.
fn is_name(name: &Vec<u8>, expected: &str) -> (result: bool)
    ensures
        result == (uppercase(name@) == bytes_of(expected)),
{
    let expected_bytes = expected.as_bytes();
    assert(expected_bytes@ == bytes_of(expected)) by {
        reveal(bytes_of);
    }
    if name.len() != expected_bytes.len() {
        return false;
    }
    let mut i: usize = 0;
    while i < name.len()
        invariant
            i <= name@.len(),
            name@.len() == expected_bytes@.len(),
            expected_bytes@ == bytes_of(expected),
            forall|j: int| 0 <= j < i ==> uppercase(name@)[j] == #[trigger] expected_bytes@[j],
        decreases name.len() - i,
    {
        if to_upper(name[i]) != expected_bytes[i] {
            assert(uppercase(name@)[i as int] != bytes_of(expected)[i as int]);
            return false;
        }
        i = i + 1;
    }
    assert(uppercase(name@) =~= bytes_of(expected));
    true
}

/// The bit of the SASL mechanism that `name` names, in upper or lower case.
pub fn find_mechanism(name: &Vec<u8>) -> (result: Option<u64>)
    ensures
        result == mechanism_bit(uppercase(name@)),
{
    if name.is_empty() {
        None
    } else if is_name(name, "SCRAM-SHA-256-PLUS") {
        Some(AUTH_SCRAM_SHA_256_PLUS)
    } else if is_name(name, "SCRAM-SHA-256") {
        Some(AUTH_SCRAM_SHA_256)
    } else if is_name(name, "SCRAM-SHA-1-PLUS") {
        Some(AUTH_SCRAM_SHA_1_PLUS)
    } else if is_name(name, "SCRAM-SHA-1") {
        Some(AUTH_SCRAM_SHA_1)
    } else if is_name(name, "OAUTHBEARER") {
        Some(AUTH_OAUTHBEARER)
    } else if is_name(name, "XOAUTH") {
        Some(AUTH_XOAUTH)
    } else if is_name(name, "XOAUTH2") {
        Some(AUTH_XOAUTH2)
    } else if is_name(name, "9798-M-DSA-SHA1") {
        Some(AUTH_9798_M_DSA_SHA1)
    } else if is_name(name, "9798-M-ECDSA-SHA1") {
        Some(AUTH_9798_M_ECDSA_SHA1)
    } else if is_name(name, "9798-M-RSA-SHA1-ENC") {
        Some(AUTH_9798_M_RSA_SHA1_ENC)
    } else if is_name(name, "9798-U-DSA-SHA1") {
        Some(AUTH_9798_U_DSA_SHA1)
    } else if is_name(name, "9798-U-ECDSA-SHA1") {
        Some(AUTH_9798_U_ECDSA_SHA1)
    } else if is_name(name, "9798-U-RSA-SHA1-ENC") {
        Some(AUTH_9798_U_RSA_SHA1_ENC)
    } else if is_name(name, "EAP-AES128") {
        Some(AUTH_EAP_AES128)
    } else if is_name(name, "EAP-AES128-PLUS") {
        Some(AUTH_EAP_AES128_PLUS)
    } else if is_name(name, "ECDH-X25519-CHALLENGE") {
        Some(AUTH_ECDH_X25519_CHALLENGE)
    } else if is_name(name, "ECDSA-NIST256P-CHALLENGE") {
        Some(AUTH_ECDSA_NIST256P_CHALLENGE)
    } else if is_name(name, "EXTERNAL") {
        Some(AUTH_EXTERNAL)
    } else if is_name(name, "GS2-KRB5") {
        Some(AUTH_GS2_KRB5)
    } else if is_name(name, "GS2-KRB5-PLUS") {
        Some(AUTH_GS2_KRB5_PLUS)
    } else if is_name(name, "GSS-SPNEGO") {
        Some(AUTH_GSS_SPNEGO)
    } else if is_name(name, "GSSAPI") {
        Some(AUTH_GSSAPI)
    } else if is_name(name, "KERBEROS_V4") {
        Some(AUTH_KERBEROS_V4)
    } else if is_name(name, "KERBEROS_V5") {
        Some(AUTH_KERBEROS_V5)
    } else if is_name(name, "NMAS-SAMBA-AUTH") {
        Some(AUTH_NMAS_SAMBA_AUTH)
    } else if is_name(name, "NMAS-AUTHEN") {
        Some(AUTH_NMAS_AUTHEN)
    } else if is_name(name, "NMAS-LOGIN") {
        Some(AUTH_NMAS_LOGIN)
    } else if is_name(name, "NTLM") {
        Some(AUTH_NTLM)
    } else if is_name(name, "OAUTH10A") {
        Some(AUTH_OAUTH10A)
    } else if is_name(name, "OPENID20") {
        Some(AUTH_OPENID20)
    } else if is_name(name, "OTP") {
        Some(AUTH_OTP)
    } else if is_name(name, "SAML20") {
        Some(AUTH_SAML20)
    } else if is_name(name, "SECURID") {
        Some(AUTH_SECURID)
    } else if is_name(name, "SKEY") {
        Some(AUTH_SKEY)
    } else if is_name(name, "SPNEGO") {
        Some(AUTH_SPNEGO)
    } else if is_name(name, "SPNEGO-PLUS") {
        Some(AUTH_SPNEGO_PLUS)
    } else if is_name(name, "SXOVER-PLUS") {
        Some(AUTH_SXOVER_PLUS)
    } else if is_name(name, "CRAM-MD5") {
        Some(AUTH_CRAM_MD5)
    } else if is_name(name, "DIGEST-MD5") {
        Some(AUTH_DIGEST_MD5)
    } else if is_name(name, "LOGIN") {
        Some(AUTH_LOGIN)
    } else if is_name(name, "PLAIN") {
        Some(AUTH_PLAIN)
    } else if is_name(name, "ANONYMOUS") {
        Some(AUTH_ANONYMOUS)
    } else {
        None
    }
}

/// The bits of the extensions, from the lowest up.
proof fn lemma_extension_bits()
    ensures
        EXT_8BIT_MIME == 1u32 << 0u32,
        EXT_ATRN == 1u32 << 1u32,
        EXT_AUTH == 1u32 << 2u32,
        EXT_BINARY_MIME == 1u32 << 3u32,
        EXT_BURL == 1u32 << 4u32,
        EXT_CHECKPOINT == 1u32 << 5u32,
        EXT_CHUNKING == 1u32 << 6u32,
        EXT_CONNEG == 1u32 << 7u32,
        EXT_CONPERM == 1u32 << 8u32,
        EXT_DELIVER_BY == 1u32 << 9u32,
        EXT_DSN == 1u32 << 10u32,
        EXT_ENHANCED_STATUS_CODES == 1u32 << 11u32,
        EXT_ETRN == 1u32 << 12u32,
        EXT_EXPN == 1u32 << 13u32,
        EXT_FUTURE_RELEASE == 1u32 << 14u32,
        EXT_HELP == 1u32 << 15u32,
        EXT_MT_PRIORITY == 1u32 << 16u32,
        EXT_MTRK == 1u32 << 17u32,
        EXT_NO_SOLICITING == 1u32 << 18u32,
        EXT_ONEX == 1u32 << 19u32,
        EXT_PIPELINING == 1u32 << 20u32,
        EXT_REQUIRE_TLS == 1u32 << 21u32,
        EXT_RRVS == 1u32 << 22u32,
        EXT_SIZE == 1u32 << 23u32,
        EXT_SMTP_UTF8 == 1u32 << 24u32,
        EXT_START_TLS == 1u32 << 25u32,
        EXT_VERB == 1u32 << 26u32,
{
    assert(0x00000001u32 == 1u32 << 0u32
        && 0x00000002u32 == 1u32 << 1u32
        && 0x00000004u32 == 1u32 << 2u32
        && 0x00000008u32 == 1u32 << 3u32
        && 0x00000010u32 == 1u32 << 4u32
        && 0x00000020u32 == 1u32 << 5u32
        && 0x00000040u32 == 1u32 << 6u32
        && 0x00000080u32 == 1u32 << 7u32
        && 0x00000100u32 == 1u32 << 8u32
        && 0x00000200u32 == 1u32 << 9u32
        && 0x00000400u32 == 1u32 << 10u32
        && 0x00000800u32 == 1u32 << 11u32
        && 0x00001000u32 == 1u32 << 12u32
        && 0x00002000u32 == 1u32 << 13u32
        && 0x00004000u32 == 1u32 << 14u32
        && 0x00008000u32 == 1u32 << 15u32
        && 0x00010000u32 == 1u32 << 16u32
        && 0x00020000u32 == 1u32 << 17u32
        && 0x00040000u32 == 1u32 << 18u32
        && 0x00080000u32 == 1u32 << 19u32
        && 0x00100000u32 == 1u32 << 20u32
        && 0x00200000u32 == 1u32 << 21u32
        && 0x00400000u32 == 1u32 << 22u32
        && 0x00800000u32 == 1u32 << 23u32
        && 0x01000000u32 == 1u32 << 24u32
        && 0x02000000u32 == 1u32 << 25u32
        && 0x04000000u32 == 1u32 << 26u32) by (bit_vector);
}

/// The bits of the mechanisms, from the lowest up.
proof fn lemma_mechanism_bits()
    ensures
        AUTH_SCRAM_SHA_256_PLUS == 1u64 << 0u64,
        AUTH_SCRAM_SHA_256 == 1u64 << 1u64,
        AUTH_SCRAM_SHA_1_PLUS == 1u64 << 2u64,
        AUTH_SCRAM_SHA_1 == 1u64 << 3u64,
        AUTH_OAUTHBEARER == 1u64 << 4u64,
        AUTH_XOAUTH == 1u64 << 5u64,
        AUTH_XOAUTH2 == 1u64 << 6u64,
        AUTH_9798_M_DSA_SHA1 == 1u64 << 7u64,
        AUTH_9798_M_ECDSA_SHA1 == 1u64 << 8u64,
        AUTH_9798_M_RSA_SHA1_ENC == 1u64 << 9u64,
        AUTH_9798_U_DSA_SHA1 == 1u64 << 10u64,
        AUTH_9798_U_ECDSA_SHA1 == 1u64 << 11u64,
        AUTH_9798_U_RSA_SHA1_ENC == 1u64 << 12u64,
        AUTH_EAP_AES128 == 1u64 << 13u64,
        AUTH_EAP_AES128_PLUS == 1u64 << 14u64,
        AUTH_ECDH_X25519_CHALLENGE == 1u64 << 15u64,
        AUTH_ECDSA_NIST256P_CHALLENGE == 1u64 << 16u64,
        AUTH_EXTERNAL == 1u64 << 17u64,
        AUTH_GS2_KRB5 == 1u64 << 18u64,
        AUTH_GS2_KRB5_PLUS == 1u64 << 19u64,
        AUTH_GSS_SPNEGO == 1u64 << 20u64,
        AUTH_GSSAPI == 1u64 << 21u64,
        AUTH_KERBEROS_V4 == 1u64 << 22u64,
        AUTH_KERBEROS_V5 == 1u64 << 23u64,
        AUTH_NMAS_SAMBA_AUTH == 1u64 << 24u64,
        AUTH_NMAS_AUTHEN == 1u64 << 25u64,
        AUTH_NMAS_LOGIN == 1u64 << 26u64,
        AUTH_NTLM == 1u64 << 27u64,
        AUTH_OAUTH10A == 1u64 << 28u64,
        AUTH_OPENID20 == 1u64 << 29u64,
        AUTH_OTP == 1u64 << 30u64,
        AUTH_SAML20 == 1u64 << 31u64,
        AUTH_SECURID == 1u64 << 32u64,
        AUTH_SKEY == 1u64 << 33u64,
        AUTH_SPNEGO == 1u64 << 34u64,
        AUTH_SPNEGO_PLUS == 1u64 << 35u64,
        AUTH_SXOVER_PLUS == 1u64 << 36u64,
        AUTH_CRAM_MD5 == 1u64 << 37u64,
        AUTH_DIGEST_MD5 == 1u64 << 38u64,
        AUTH_LOGIN == 1u64 << 39u64,
        AUTH_PLAIN == 1u64 << 40u64,
        AUTH_ANONYMOUS == 1u64 << 41u64,
{
    assert(0x0000000000000001u64 == 1u64 << 0u64
        && 0x0000000000000002u64 == 1u64 << 1u64
        && 0x0000000000000004u64 == 1u64 << 2u64
        && 0x0000000000000008u64 == 1u64 << 3u64
        && 0x0000000000000010u64 == 1u64 << 4u64
        && 0x0000000000000020u64 == 1u64 << 5u64
        && 0x0000000000000040u64 == 1u64 << 6u64
        && 0x0000000000000080u64 == 1u64 << 7u64
        && 0x0000000000000100u64 == 1u64 << 8u64
        && 0x0000000000000200u64 == 1u64 << 9u64
        && 0x0000000000000400u64 == 1u64 << 10u64
        && 0x0000000000000800u64 == 1u64 << 11u64
        && 0x0000000000001000u64 == 1u64 << 12u64
        && 0x0000000000002000u64 == 1u64 << 13u64
        && 0x0000000000004000u64 == 1u64 << 14u64
        && 0x0000000000008000u64 == 1u64 << 15u64
        && 0x0000000000010000u64 == 1u64 << 16u64
        && 0x0000000000020000u64 == 1u64 << 17u64
        && 0x0000000000040000u64 == 1u64 << 18u64
        && 0x0000000000080000u64 == 1u64 << 19u64
        && 0x0000000000100000u64 == 1u64 << 20u64
        && 0x0000000000200000u64 == 1u64 << 21u64
        && 0x0000000000400000u64 == 1u64 << 22u64
        && 0x0000000000800000u64 == 1u64 << 23u64
        && 0x0000000001000000u64 == 1u64 << 24u64
        && 0x0000000002000000u64 == 1u64 << 25u64
        && 0x0000000004000000u64 == 1u64 << 26u64
        && 0x0000000008000000u64 == 1u64 << 27u64
        && 0x0000000010000000u64 == 1u64 << 28u64
        && 0x0000000020000000u64 == 1u64 << 29u64
        && 0x0000000040000000u64 == 1u64 << 30u64
        && 0x0000000080000000u64 == 1u64 << 31u64
        && 0x0000000100000000u64 == 1u64 << 32u64
        && 0x0000000200000000u64 == 1u64 << 33u64
        && 0x0000000400000000u64 == 1u64 << 34u64
        && 0x0000000800000000u64 == 1u64 << 35u64
        && 0x0000001000000000u64 == 1u64 << 36u64
        && 0x0000002000000000u64 == 1u64 << 37u64
        && 0x0000004000000000u64 == 1u64 << 38u64
        && 0x0000008000000000u64 == 1u64 << 39u64
        && 0x0000010000000000u64 == 1u64 << 40u64
        && 0x0000020000000000u64 == 1u64 << 41u64) by (bit_vector);
}

/// Each extension has a bit of its own: two keywords whose bits meet are the same.
pub proof fn law_extensions_have_their_own_bits(a: Seq<u8>, b: Seq<u8>)
    requires
        extension_bit(a) & extension_bit(b) != 0,
    ensures
        a == b,
{
    lemma_extension_bits();
    let (x, y) = (extension_bit(a), extension_bit(b));
    assert(x & y != 0 ==> x != 0 && y != 0) by (bit_vector);
    let i = choose|i: u32| i < 32 && x == #[trigger] (1u32 << i);
    let j = choose|j: u32| j < 32 && y == #[trigger] (1u32 << j);
    assert((1u32 << i) & (1u32 << j) != 0 ==> i == j) by (bit_vector)
        requires
            i < 32,
            j < 32,
    ;
}

/// Each mechanism has a bit of its own: two names whose bits meet are the same.
pub proof fn law_mechanisms_have_their_own_bits(a: Seq<u8>, b: Seq<u8>)
    requires
        mechanism_bit(a) is Some,
        mechanism_bit(b) is Some,
        mechanism_bit(a)->0 & mechanism_bit(b)->0 != 0,
    ensures
        a == b,
{
    lemma_mechanism_bits();
    let (x, y) = (mechanism_bit(a)->0, mechanism_bit(b)->0);
    assert(x & y != 0 ==> x != 0 && y != 0) by (bit_vector);
    let i = choose|i: u64| i < 64 && x == #[trigger] (1u64 << i);
    let j = choose|j: u64| j < 64 && y == #[trigger] (1u64 << j);
    assert((1u64 << i) & (1u64 << j) != 0 ==> i == j) by (bit_vector)
        requires
            i < 64,
            j < 64,
    ;
}

} // verus!
