//! Which name stands for which extension, and for which SASL mechanism.

use crate::notation::{is_word_byte, lemma_spells, spells};
use crate::offers::{
    extension_bit, mechanism_bit, uppercase, AUTH_9798_M_DSA_SHA1, AUTH_9798_M_ECDSA_SHA1,
    AUTH_9798_M_RSA_SHA1_ENC, AUTH_9798_U_DSA_SHA1, AUTH_9798_U_ECDSA_SHA1,
    AUTH_9798_U_RSA_SHA1_ENC, AUTH_ANONYMOUS, AUTH_CRAM_MD5, AUTH_DIGEST_MD5, AUTH_EAP_AES128,
    AUTH_EAP_AES128_PLUS, AUTH_ECDH_X25519_CHALLENGE, AUTH_ECDSA_NIST256P_CHALLENGE, AUTH_EXTERNAL,
    AUTH_GS2_KRB5, AUTH_GS2_KRB5_PLUS, AUTH_GSSAPI, AUTH_GSS_SPNEGO, AUTH_KERBEROS_V4,
    AUTH_KERBEROS_V5, AUTH_LOGIN, AUTH_NMAS_AUTHEN, AUTH_NMAS_LOGIN, AUTH_NMAS_SAMBA_AUTH,
    AUTH_NTLM, AUTH_OAUTH10A, AUTH_OAUTHBEARER, AUTH_OPENID20, AUTH_OTP, AUTH_PLAIN, AUTH_SAML20,
    AUTH_SCRAM_SHA_1, AUTH_SCRAM_SHA_1_PLUS, AUTH_SCRAM_SHA_256, AUTH_SCRAM_SHA_256_PLUS,
    AUTH_SECURID, AUTH_SKEY, AUTH_SPNEGO, AUTH_SPNEGO_PLUS, AUTH_SXOVER_PLUS, AUTH_XOAUTH,
    AUTH_XOAUTH2, EXT_8BIT_MIME, EXT_ATRN, EXT_AUTH, EXT_BINARY_MIME, EXT_BURL, EXT_CHECKPOINT,
    EXT_CHUNKING, EXT_CONNEG, EXT_CONPERM, EXT_DELIVER_BY, EXT_DSN, EXT_ETRN, EXT_EXPN,
    EXT_FUTURE_RELEASE, EXT_HELP, EXT_MTRK, EXT_MT_PRIORITY, EXT_NO_SOLICITING, EXT_ONEX,
    EXT_PIPELINING, EXT_REQUIRE_TLS, EXT_RRVS, EXT_SIZE, EXT_SMTP_UTF8, EXT_START_TLS, EXT_VERB,
};
use crate::scan_laws::is_plain_word;
use crate::text::{bytes_of, lemma_bytes_of_ascii};
use crate::tokens;
use crate::tokens::{is_word, lemma_tokens, packed};
use vstd::prelude::*;

verus! {

/// The name, in letters of any case, is that of a known mechanism.
pub open spec fn is_mechanism_name(name: Seq<u8>) -> bool {
    ||| spells(name, "SCRAM-SHA-256-PLUS")
    ||| spells(name, "SCRAM-SHA-256")
    ||| spells(name, "SCRAM-SHA-1-PLUS")
    ||| spells(name, "SCRAM-SHA-1")
    ||| spells(name, "OAUTHBEARER")
    ||| spells(name, "XOAUTH")
    ||| spells(name, "XOAUTH2")
    ||| spells(name, "9798-M-DSA-SHA1")
    ||| spells(name, "9798-M-ECDSA-SHA1")
    ||| spells(name, "9798-M-RSA-SHA1-ENC")
    ||| spells(name, "9798-U-DSA-SHA1")
    ||| spells(name, "9798-U-ECDSA-SHA1")
    ||| spells(name, "9798-U-RSA-SHA1-ENC")
    ||| spells(name, "EAP-AES128")
    ||| spells(name, "EAP-AES128-PLUS")
    ||| spells(name, "ECDH-X25519-CHALLENGE")
    ||| spells(name, "ECDSA-NIST256P-CHALLENGE")
    ||| spells(name, "EXTERNAL")
    ||| spells(name, "GS2-KRB5")
    ||| spells(name, "GS2-KRB5-PLUS")
    ||| spells(name, "GSS-SPNEGO")
    ||| spells(name, "GSSAPI")
    ||| spells(name, "KERBEROS_V4")
    ||| spells(name, "KERBEROS_V5")
    ||| spells(name, "NMAS-SAMBA-AUTH")
    ||| spells(name, "NMAS-AUTHEN")
    ||| spells(name, "NMAS-LOGIN")
    ||| spells(name, "NTLM")
    ||| spells(name, "OAUTH10A")
    ||| spells(name, "OPENID20")
    ||| spells(name, "OTP")
    ||| spells(name, "SAML20")
    ||| spells(name, "SECURID")
    ||| spells(name, "SKEY")
    ||| spells(name, "SPNEGO")
    ||| spells(name, "SPNEGO-PLUS")
    ||| spells(name, "SXOVER-PLUS")
    ||| spells(name, "CRAM-MD5")
    ||| spells(name, "DIGEST-MD5")
    ||| spells(name, "LOGIN")
    ||| spells(name, "PLAIN")
    ||| spells(name, "ANONYMOUS")
}

/// The name has the given length.
spec fn is_long(name: &str, length: nat) -> bool {
    bytes_of(name).len() == length
}

/// The name has the given byte at some place.
spec fn has_at(name: &str, i: int, byte: u8) -> bool {
    bytes_of(name)[i] == byte
}

/// Spelling the name and being its bytes in upper case are the same.
spec fn is_spelled(word: Seq<u8>, name: &str) -> bool {
    spells(word, name) == (uppercase(word) == bytes_of(name))
}

/// Bytes that spell `name` stand for the mechanism with the bit `bit`.
pub open spec fn names_mechanism(bytes: Seq<u8>, name: &str, bit: u64) -> bool {
    spells(bytes, name) ==> mechanism_bit(uppercase(bytes)) == Some(bit)
}

/// Bytes that spell `keyword` stand for the extension with the bit `bit`.
pub open spec fn names_extension(bytes: Seq<u8>, keyword: &str, bit: u32) -> bool {
    spells(bytes, keyword) ==> extension_bit(uppercase(bytes)) == bit
}

/// Lengths and letters by which the names of the mechanisms are told apart.
proof fn lemma_mechanism_names_differ()
    ensures
        is_long("SCRAM-SHA-256-PLUS", 18),
        is_long("SCRAM-SHA-256", 13),
        has_at("SCRAM-SHA-256", 0, 0x53),
        is_long("SCRAM-SHA-1-PLUS", 16),
        is_long("SCRAM-SHA-1", 11),
        has_at("SCRAM-SHA-1", 1, 0x43),
        has_at("SCRAM-SHA-1", 10, 0x31),
        is_long("OAUTHBEARER", 11),
        has_at("OAUTHBEARER", 1, 0x41),
        has_at("OAUTHBEARER", 10, 0x52),
        is_long("XOAUTH", 6),
        has_at("XOAUTH", 1, 0x4f),
        is_long("XOAUTH2", 7),
        has_at("XOAUTH2", 0, 0x58),
        is_long("9798-M-DSA-SHA1", 15),
        has_at("9798-M-DSA-SHA1", 5, 0x4d),
        is_long("9798-M-ECDSA-SHA1", 17),
        has_at("9798-M-ECDSA-SHA1", 5, 0x4d),
        is_long("9798-M-RSA-SHA1-ENC", 19),
        has_at("9798-M-RSA-SHA1-ENC", 5, 0x4d),
        is_long("9798-U-DSA-SHA1", 15),
        has_at("9798-U-DSA-SHA1", 5, 0x55),
        is_long("9798-U-ECDSA-SHA1", 17),
        has_at("9798-U-ECDSA-SHA1", 5, 0x55),
        is_long("9798-U-RSA-SHA1-ENC", 19),
        has_at("9798-U-RSA-SHA1-ENC", 5, 0x55),
        is_long("EAP-AES128", 10),
        has_at("EAP-AES128", 0, 0x45),
        is_long("EAP-AES128-PLUS", 15),
        has_at("EAP-AES128-PLUS", 5, 0x45),
        is_long("ECDH-X25519-CHALLENGE", 21),
        is_long("ECDSA-NIST256P-CHALLENGE", 24),
        is_long("EXTERNAL", 8),
        has_at("EXTERNAL", 1, 0x58),
        is_long("GS2-KRB5", 8),
        has_at("GS2-KRB5", 1, 0x53),
        is_long("GS2-KRB5-PLUS", 13),
        has_at("GS2-KRB5-PLUS", 0, 0x47),
        is_long("GSS-SPNEGO", 10),
        has_at("GSS-SPNEGO", 0, 0x47),
        is_long("GSSAPI", 6),
        has_at("GSSAPI", 1, 0x53),
        is_long("KERBEROS_V4", 11),
        has_at("KERBEROS_V4", 1, 0x45),
        has_at("KERBEROS_V4", 10, 0x34),
        is_long("KERBEROS_V5", 11),
        has_at("KERBEROS_V5", 1, 0x45),
        has_at("KERBEROS_V5", 10, 0x35),
        is_long("NMAS-SAMBA-AUTH", 15),
        has_at("NMAS-SAMBA-AUTH", 5, 0x53),
        is_long("NMAS-AUTHEN", 11),
        has_at("NMAS-AUTHEN", 1, 0x4d),
        has_at("NMAS-AUTHEN", 10, 0x4e),
        is_long("NMAS-LOGIN", 10),
        has_at("NMAS-LOGIN", 0, 0x4e),
        is_long("NTLM", 4),
        has_at("NTLM", 0, 0x4e),
        is_long("OAUTH10A", 8),
        has_at("OAUTH10A", 1, 0x41),
        is_long("OPENID20", 8),
        has_at("OPENID20", 1, 0x50),
        is_long("OTP", 3),
        is_long("SAML20", 6),
        has_at("SAML20", 1, 0x41),
        is_long("SECURID", 7),
        has_at("SECURID", 0, 0x53),
        is_long("SKEY", 4),
        has_at("SKEY", 0, 0x53),
        is_long("SPNEGO", 6),
        has_at("SPNEGO", 1, 0x50),
        is_long("SPNEGO-PLUS", 11),
        has_at("SPNEGO-PLUS", 1, 0x50),
        has_at("SPNEGO-PLUS", 10, 0x53),
        is_long("SXOVER-PLUS", 11),
        has_at("SXOVER-PLUS", 1, 0x58),
        has_at("SXOVER-PLUS", 10, 0x53),
        is_long("CRAM-MD5", 8),
        has_at("CRAM-MD5", 1, 0x52),
        is_long("DIGEST-MD5", 10),
        has_at("DIGEST-MD5", 0, 0x44),
        is_long("LOGIN", 5),
        has_at("LOGIN", 0, 0x4c),
        is_long("PLAIN", 5),
        has_at("PLAIN", 0, 0x50),
        is_long("ANONYMOUS", 9),
{
    assert(is_long("SCRAM-SHA-256-PLUS", 18)) by {
        reveal_strlit("SCRAM-SHA-256-PLUS");
        lemma_bytes_of_ascii("SCRAM-SHA-256-PLUS");
    }
    assert(is_long("SCRAM-SHA-256", 13) && has_at("SCRAM-SHA-256", 0, 0x53)) by {
        reveal_strlit("SCRAM-SHA-256");
        lemma_bytes_of_ascii("SCRAM-SHA-256");
    }
    assert(is_long("SCRAM-SHA-1-PLUS", 16)) by {
        reveal_strlit("SCRAM-SHA-1-PLUS");
        lemma_bytes_of_ascii("SCRAM-SHA-1-PLUS");
    }
    assert(is_long("SCRAM-SHA-1", 11) && has_at("SCRAM-SHA-1", 1, 0x43)
        && has_at("SCRAM-SHA-1", 10, 0x31)) by {
        reveal_strlit("SCRAM-SHA-1");
        lemma_bytes_of_ascii("SCRAM-SHA-1");
    }
    assert(is_long("OAUTHBEARER", 11) && has_at("OAUTHBEARER", 1, 0x41)
        && has_at("OAUTHBEARER", 10, 0x52)) by {
        reveal_strlit("OAUTHBEARER");
        lemma_bytes_of_ascii("OAUTHBEARER");
    }
    assert(is_long("XOAUTH", 6) && has_at("XOAUTH", 1, 0x4f)) by {
        reveal_strlit("XOAUTH");
        lemma_bytes_of_ascii("XOAUTH");
    }
    assert(is_long("XOAUTH2", 7) && has_at("XOAUTH2", 0, 0x58)) by {
        reveal_strlit("XOAUTH2");
        lemma_bytes_of_ascii("XOAUTH2");
    }
    assert(is_long("9798-M-DSA-SHA1", 15) && has_at("9798-M-DSA-SHA1", 5, 0x4d)) by {
        reveal_strlit("9798-M-DSA-SHA1");
        lemma_bytes_of_ascii("9798-M-DSA-SHA1");
    }
    assert(is_long("9798-M-ECDSA-SHA1", 17) && has_at("9798-M-ECDSA-SHA1", 5, 0x4d)) by {
        reveal_strlit("9798-M-ECDSA-SHA1");
        lemma_bytes_of_ascii("9798-M-ECDSA-SHA1");
    }
    assert(is_long("9798-M-RSA-SHA1-ENC", 19) && has_at("9798-M-RSA-SHA1-ENC", 5, 0x4d)) by {
        reveal_strlit("9798-M-RSA-SHA1-ENC");
        lemma_bytes_of_ascii("9798-M-RSA-SHA1-ENC");
    }
    assert(is_long("9798-U-DSA-SHA1", 15) && has_at("9798-U-DSA-SHA1", 5, 0x55)) by {
        reveal_strlit("9798-U-DSA-SHA1");
        lemma_bytes_of_ascii("9798-U-DSA-SHA1");
    }
    assert(is_long("9798-U-ECDSA-SHA1", 17) && has_at("9798-U-ECDSA-SHA1", 5, 0x55)) by {
        reveal_strlit("9798-U-ECDSA-SHA1");
        lemma_bytes_of_ascii("9798-U-ECDSA-SHA1");
    }
    assert(is_long("9798-U-RSA-SHA1-ENC", 19) && has_at("9798-U-RSA-SHA1-ENC", 5, 0x55)) by {
        reveal_strlit("9798-U-RSA-SHA1-ENC");
        lemma_bytes_of_ascii("9798-U-RSA-SHA1-ENC");
    }
    assert(is_long("EAP-AES128", 10) && has_at("EAP-AES128", 0, 0x45)) by {
        reveal_strlit("EAP-AES128");
        lemma_bytes_of_ascii("EAP-AES128");
    }
    assert(is_long("EAP-AES128-PLUS", 15) && has_at("EAP-AES128-PLUS", 5, 0x45)) by {
        reveal_strlit("EAP-AES128-PLUS");
        lemma_bytes_of_ascii("EAP-AES128-PLUS");
    }
    assert(is_long("ECDH-X25519-CHALLENGE", 21)) by {
        reveal_strlit("ECDH-X25519-CHALLENGE");
        lemma_bytes_of_ascii("ECDH-X25519-CHALLENGE");
    }
    assert(is_long("ECDSA-NIST256P-CHALLENGE", 24)) by {
        reveal_strlit("ECDSA-NIST256P-CHALLENGE");
        lemma_bytes_of_ascii("ECDSA-NIST256P-CHALLENGE");
    }
    assert(is_long("EXTERNAL", 8) && has_at("EXTERNAL", 1, 0x58)) by {
        reveal_strlit("EXTERNAL");
        lemma_bytes_of_ascii("EXTERNAL");
    }
    assert(is_long("GS2-KRB5", 8) && has_at("GS2-KRB5", 1, 0x53)) by {
        reveal_strlit("GS2-KRB5");
        lemma_bytes_of_ascii("GS2-KRB5");
    }
    assert(is_long("GS2-KRB5-PLUS", 13) && has_at("GS2-KRB5-PLUS", 0, 0x47)) by {
        reveal_strlit("GS2-KRB5-PLUS");
        lemma_bytes_of_ascii("GS2-KRB5-PLUS");
    }
    assert(is_long("GSS-SPNEGO", 10) && has_at("GSS-SPNEGO", 0, 0x47)) by {
        reveal_strlit("GSS-SPNEGO");
        lemma_bytes_of_ascii("GSS-SPNEGO");
    }
    assert(is_long("GSSAPI", 6) && has_at("GSSAPI", 1, 0x53)) by {
        reveal_strlit("GSSAPI");
        lemma_bytes_of_ascii("GSSAPI");
    }
    assert(is_long("KERBEROS_V4", 11) && has_at("KERBEROS_V4", 1, 0x45)
        && has_at("KERBEROS_V4", 10, 0x34)) by {
        reveal_strlit("KERBEROS_V4");
        lemma_bytes_of_ascii("KERBEROS_V4");
    }
    assert(is_long("KERBEROS_V5", 11) && has_at("KERBEROS_V5", 1, 0x45)
        && has_at("KERBEROS_V5", 10, 0x35)) by {
        reveal_strlit("KERBEROS_V5");
        lemma_bytes_of_ascii("KERBEROS_V5");
    }
    assert(is_long("NMAS-SAMBA-AUTH", 15) && has_at("NMAS-SAMBA-AUTH", 5, 0x53)) by {
        reveal_strlit("NMAS-SAMBA-AUTH");
        lemma_bytes_of_ascii("NMAS-SAMBA-AUTH");
    }
    assert(is_long("NMAS-AUTHEN", 11) && has_at("NMAS-AUTHEN", 1, 0x4d)
        && has_at("NMAS-AUTHEN", 10, 0x4e)) by {
        reveal_strlit("NMAS-AUTHEN");
        lemma_bytes_of_ascii("NMAS-AUTHEN");
    }
    assert(is_long("NMAS-LOGIN", 10) && has_at("NMAS-LOGIN", 0, 0x4e)) by {
        reveal_strlit("NMAS-LOGIN");
        lemma_bytes_of_ascii("NMAS-LOGIN");
    }
    assert(is_long("NTLM", 4) && has_at("NTLM", 0, 0x4e)) by {
        reveal_strlit("NTLM");
        lemma_bytes_of_ascii("NTLM");
    }
    assert(is_long("OAUTH10A", 8) && has_at("OAUTH10A", 1, 0x41)) by {
        reveal_strlit("OAUTH10A");
        lemma_bytes_of_ascii("OAUTH10A");
    }
    assert(is_long("OPENID20", 8) && has_at("OPENID20", 1, 0x50)) by {
        reveal_strlit("OPENID20");
        lemma_bytes_of_ascii("OPENID20");
    }
    assert(is_long("OTP", 3)) by {
        reveal_strlit("OTP");
        lemma_bytes_of_ascii("OTP");
    }
    assert(is_long("SAML20", 6) && has_at("SAML20", 1, 0x41)) by {
        reveal_strlit("SAML20");
        lemma_bytes_of_ascii("SAML20");
    }
    assert(is_long("SECURID", 7) && has_at("SECURID", 0, 0x53)) by {
        reveal_strlit("SECURID");
        lemma_bytes_of_ascii("SECURID");
    }
    assert(is_long("SKEY", 4) && has_at("SKEY", 0, 0x53)) by {
        reveal_strlit("SKEY");
        lemma_bytes_of_ascii("SKEY");
    }
    assert(is_long("SPNEGO", 6) && has_at("SPNEGO", 1, 0x50)) by {
        reveal_strlit("SPNEGO");
        lemma_bytes_of_ascii("SPNEGO");
    }
    assert(is_long("SPNEGO-PLUS", 11) && has_at("SPNEGO-PLUS", 1, 0x50)
        && has_at("SPNEGO-PLUS", 10, 0x53)) by {
        reveal_strlit("SPNEGO-PLUS");
        lemma_bytes_of_ascii("SPNEGO-PLUS");
    }
    assert(is_long("SXOVER-PLUS", 11) && has_at("SXOVER-PLUS", 1, 0x58)
        && has_at("SXOVER-PLUS", 10, 0x53)) by {
        reveal_strlit("SXOVER-PLUS");
        lemma_bytes_of_ascii("SXOVER-PLUS");
    }
    assert(is_long("CRAM-MD5", 8) && has_at("CRAM-MD5", 1, 0x52)) by {
        reveal_strlit("CRAM-MD5");
        lemma_bytes_of_ascii("CRAM-MD5");
    }
    assert(is_long("DIGEST-MD5", 10) && has_at("DIGEST-MD5", 0, 0x44)) by {
        reveal_strlit("DIGEST-MD5");
        lemma_bytes_of_ascii("DIGEST-MD5");
    }
    assert(is_long("LOGIN", 5) && has_at("LOGIN", 0, 0x4c)) by {
        reveal_strlit("LOGIN");
        lemma_bytes_of_ascii("LOGIN");
    }
    assert(is_long("PLAIN", 5) && has_at("PLAIN", 0, 0x50)) by {
        reveal_strlit("PLAIN");
        lemma_bytes_of_ascii("PLAIN");
    }
    assert(is_long("ANONYMOUS", 9)) by {
        reveal_strlit("ANONYMOUS");
        lemma_bytes_of_ascii("ANONYMOUS");
    }
}

proof fn lemma_mechanisms_spelled(name: Seq<u8>)
    ensures
        is_spelled(name, "SCRAM-SHA-256-PLUS"),
        is_spelled(name, "SCRAM-SHA-256"),
        is_spelled(name, "SCRAM-SHA-1-PLUS"),
        is_spelled(name, "SCRAM-SHA-1"),
        is_spelled(name, "OAUTHBEARER"),
        is_spelled(name, "XOAUTH"),
        is_spelled(name, "XOAUTH2"),
        is_spelled(name, "9798-M-DSA-SHA1"),
        is_spelled(name, "9798-M-ECDSA-SHA1"),
        is_spelled(name, "9798-M-RSA-SHA1-ENC"),
        is_spelled(name, "9798-U-DSA-SHA1"),
        is_spelled(name, "9798-U-ECDSA-SHA1"),
        is_spelled(name, "9798-U-RSA-SHA1-ENC"),
        is_spelled(name, "EAP-AES128"),
        is_spelled(name, "EAP-AES128-PLUS"),
        is_spelled(name, "ECDH-X25519-CHALLENGE"),
        is_spelled(name, "ECDSA-NIST256P-CHALLENGE"),
        is_spelled(name, "EXTERNAL"),
        is_spelled(name, "GS2-KRB5"),
        is_spelled(name, "GS2-KRB5-PLUS"),
        is_spelled(name, "GSS-SPNEGO"),
        is_spelled(name, "GSSAPI"),
        is_spelled(name, "KERBEROS_V4"),
        is_spelled(name, "KERBEROS_V5"),
        is_spelled(name, "NMAS-SAMBA-AUTH"),
        is_spelled(name, "NMAS-AUTHEN"),
        is_spelled(name, "NMAS-LOGIN"),
        is_spelled(name, "NTLM"),
        is_spelled(name, "OAUTH10A"),
        is_spelled(name, "OPENID20"),
        is_spelled(name, "OTP"),
        is_spelled(name, "SAML20"),
        is_spelled(name, "SECURID"),
        is_spelled(name, "SKEY"),
        is_spelled(name, "SPNEGO"),
        is_spelled(name, "SPNEGO-PLUS"),
        is_spelled(name, "SXOVER-PLUS"),
        is_spelled(name, "CRAM-MD5"),
        is_spelled(name, "DIGEST-MD5"),
        is_spelled(name, "LOGIN"),
        is_spelled(name, "PLAIN"),
        is_spelled(name, "ANONYMOUS"),
{
    assert(is_spelled(name, "SCRAM-SHA-256-PLUS")) by {
        reveal_strlit("SCRAM-SHA-256-PLUS");
        lemma_spells(name, "SCRAM-SHA-256-PLUS");
    }
    assert(is_spelled(name, "SCRAM-SHA-256")) by {
        reveal_strlit("SCRAM-SHA-256");
        lemma_spells(name, "SCRAM-SHA-256");
    }
    assert(is_spelled(name, "SCRAM-SHA-1-PLUS")) by {
        reveal_strlit("SCRAM-SHA-1-PLUS");
        lemma_spells(name, "SCRAM-SHA-1-PLUS");
    }
    assert(is_spelled(name, "SCRAM-SHA-1")) by {
        reveal_strlit("SCRAM-SHA-1");
        lemma_spells(name, "SCRAM-SHA-1");
    }
    assert(is_spelled(name, "OAUTHBEARER")) by {
        reveal_strlit("OAUTHBEARER");
        lemma_spells(name, "OAUTHBEARER");
    }
    assert(is_spelled(name, "XOAUTH")) by {
        reveal_strlit("XOAUTH");
        lemma_spells(name, "XOAUTH");
    }
    assert(is_spelled(name, "XOAUTH2")) by {
        reveal_strlit("XOAUTH2");
        lemma_spells(name, "XOAUTH2");
    }
    assert(is_spelled(name, "9798-M-DSA-SHA1")) by {
        reveal_strlit("9798-M-DSA-SHA1");
        lemma_spells(name, "9798-M-DSA-SHA1");
    }
    assert(is_spelled(name, "9798-M-ECDSA-SHA1")) by {
        reveal_strlit("9798-M-ECDSA-SHA1");
        lemma_spells(name, "9798-M-ECDSA-SHA1");
    }
    assert(is_spelled(name, "9798-M-RSA-SHA1-ENC")) by {
        reveal_strlit("9798-M-RSA-SHA1-ENC");
        lemma_spells(name, "9798-M-RSA-SHA1-ENC");
    }
    assert(is_spelled(name, "9798-U-DSA-SHA1")) by {
        reveal_strlit("9798-U-DSA-SHA1");
        lemma_spells(name, "9798-U-DSA-SHA1");
    }
    assert(is_spelled(name, "9798-U-ECDSA-SHA1")) by {
        reveal_strlit("9798-U-ECDSA-SHA1");
        lemma_spells(name, "9798-U-ECDSA-SHA1");
    }
    assert(is_spelled(name, "9798-U-RSA-SHA1-ENC")) by {
        reveal_strlit("9798-U-RSA-SHA1-ENC");
        lemma_spells(name, "9798-U-RSA-SHA1-ENC");
    }
    assert(is_spelled(name, "EAP-AES128")) by {
        reveal_strlit("EAP-AES128");
        lemma_spells(name, "EAP-AES128");
    }
    assert(is_spelled(name, "EAP-AES128-PLUS")) by {
        reveal_strlit("EAP-AES128-PLUS");
        lemma_spells(name, "EAP-AES128-PLUS");
    }
    assert(is_spelled(name, "ECDH-X25519-CHALLENGE")) by {
        reveal_strlit("ECDH-X25519-CHALLENGE");
        lemma_spells(name, "ECDH-X25519-CHALLENGE");
    }
    assert(is_spelled(name, "ECDSA-NIST256P-CHALLENGE")) by {
        reveal_strlit("ECDSA-NIST256P-CHALLENGE");
        lemma_spells(name, "ECDSA-NIST256P-CHALLENGE");
    }
    assert(is_spelled(name, "EXTERNAL")) by {
        reveal_strlit("EXTERNAL");
        lemma_spells(name, "EXTERNAL");
    }
    assert(is_spelled(name, "GS2-KRB5")) by {
        reveal_strlit("GS2-KRB5");
        lemma_spells(name, "GS2-KRB5");
    }
    assert(is_spelled(name, "GS2-KRB5-PLUS")) by {
        reveal_strlit("GS2-KRB5-PLUS");
        lemma_spells(name, "GS2-KRB5-PLUS");
    }
    assert(is_spelled(name, "GSS-SPNEGO")) by {
        reveal_strlit("GSS-SPNEGO");
        lemma_spells(name, "GSS-SPNEGO");
    }
    assert(is_spelled(name, "GSSAPI")) by {
        reveal_strlit("GSSAPI");
        lemma_spells(name, "GSSAPI");
    }
    assert(is_spelled(name, "KERBEROS_V4")) by {
        reveal_strlit("KERBEROS_V4");
        lemma_spells(name, "KERBEROS_V4");
    }
    assert(is_spelled(name, "KERBEROS_V5")) by {
        reveal_strlit("KERBEROS_V5");
        lemma_spells(name, "KERBEROS_V5");
    }
    assert(is_spelled(name, "NMAS-SAMBA-AUTH")) by {
        reveal_strlit("NMAS-SAMBA-AUTH");
        lemma_spells(name, "NMAS-SAMBA-AUTH");
    }
    assert(is_spelled(name, "NMAS-AUTHEN")) by {
        reveal_strlit("NMAS-AUTHEN");
        lemma_spells(name, "NMAS-AUTHEN");
    }
    assert(is_spelled(name, "NMAS-LOGIN")) by {
        reveal_strlit("NMAS-LOGIN");
        lemma_spells(name, "NMAS-LOGIN");
    }
    assert(is_spelled(name, "NTLM")) by {
        reveal_strlit("NTLM");
        lemma_spells(name, "NTLM");
    }
    assert(is_spelled(name, "OAUTH10A")) by {
        reveal_strlit("OAUTH10A");
        lemma_spells(name, "OAUTH10A");
    }
    assert(is_spelled(name, "OPENID20")) by {
        reveal_strlit("OPENID20");
        lemma_spells(name, "OPENID20");
    }
    assert(is_spelled(name, "OTP")) by {
        reveal_strlit("OTP");
        lemma_spells(name, "OTP");
    }
    assert(is_spelled(name, "SAML20")) by {
        reveal_strlit("SAML20");
        lemma_spells(name, "SAML20");
    }
    assert(is_spelled(name, "SECURID")) by {
        reveal_strlit("SECURID");
        lemma_spells(name, "SECURID");
    }
    assert(is_spelled(name, "SKEY")) by {
        reveal_strlit("SKEY");
        lemma_spells(name, "SKEY");
    }
    assert(is_spelled(name, "SPNEGO")) by {
        reveal_strlit("SPNEGO");
        lemma_spells(name, "SPNEGO");
    }
    assert(is_spelled(name, "SPNEGO-PLUS")) by {
        reveal_strlit("SPNEGO-PLUS");
        lemma_spells(name, "SPNEGO-PLUS");
    }
    assert(is_spelled(name, "SXOVER-PLUS")) by {
        reveal_strlit("SXOVER-PLUS");
        lemma_spells(name, "SXOVER-PLUS");
    }
    assert(is_spelled(name, "CRAM-MD5")) by {
        reveal_strlit("CRAM-MD5");
        lemma_spells(name, "CRAM-MD5");
    }
    assert(is_spelled(name, "DIGEST-MD5")) by {
        reveal_strlit("DIGEST-MD5");
        lemma_spells(name, "DIGEST-MD5");
    }
    assert(is_spelled(name, "LOGIN")) by {
        reveal_strlit("LOGIN");
        lemma_spells(name, "LOGIN");
    }
    assert(is_spelled(name, "PLAIN")) by {
        reveal_strlit("PLAIN");
        lemma_spells(name, "PLAIN");
    }
    assert(is_spelled(name, "ANONYMOUS")) by {
        reveal_strlit("ANONYMOUS");
        lemma_spells(name, "ANONYMOUS");
    }
}

/// The name of each mechanism, in letters of any case, stands for the bit of that mechanism, and no
/// other name stands for any.
pub proof fn law_mechanism_names(name: Seq<u8>)
    ensures
        names_mechanism(name, "SCRAM-SHA-256-PLUS", AUTH_SCRAM_SHA_256_PLUS),
        names_mechanism(name, "SCRAM-SHA-256", AUTH_SCRAM_SHA_256),
        names_mechanism(name, "SCRAM-SHA-1-PLUS", AUTH_SCRAM_SHA_1_PLUS),
        names_mechanism(name, "SCRAM-SHA-1", AUTH_SCRAM_SHA_1),
        names_mechanism(name, "OAUTHBEARER", AUTH_OAUTHBEARER),
        names_mechanism(name, "XOAUTH", AUTH_XOAUTH),
        names_mechanism(name, "XOAUTH2", AUTH_XOAUTH2),
        names_mechanism(name, "9798-M-DSA-SHA1", AUTH_9798_M_DSA_SHA1),
        names_mechanism(name, "9798-M-ECDSA-SHA1", AUTH_9798_M_ECDSA_SHA1),
        names_mechanism(name, "9798-M-RSA-SHA1-ENC", AUTH_9798_M_RSA_SHA1_ENC),
        names_mechanism(name, "9798-U-DSA-SHA1", AUTH_9798_U_DSA_SHA1),
        names_mechanism(name, "9798-U-ECDSA-SHA1", AUTH_9798_U_ECDSA_SHA1),
        names_mechanism(name, "9798-U-RSA-SHA1-ENC", AUTH_9798_U_RSA_SHA1_ENC),
        names_mechanism(name, "EAP-AES128", AUTH_EAP_AES128),
        names_mechanism(name, "EAP-AES128-PLUS", AUTH_EAP_AES128_PLUS),
        names_mechanism(name, "ECDH-X25519-CHALLENGE", AUTH_ECDH_X25519_CHALLENGE),
        names_mechanism(name, "ECDSA-NIST256P-CHALLENGE", AUTH_ECDSA_NIST256P_CHALLENGE),
        names_mechanism(name, "EXTERNAL", AUTH_EXTERNAL),
        names_mechanism(name, "GS2-KRB5", AUTH_GS2_KRB5),
        names_mechanism(name, "GS2-KRB5-PLUS", AUTH_GS2_KRB5_PLUS),
        names_mechanism(name, "GSS-SPNEGO", AUTH_GSS_SPNEGO),
        names_mechanism(name, "GSSAPI", AUTH_GSSAPI),
        names_mechanism(name, "KERBEROS_V4", AUTH_KERBEROS_V4),
        names_mechanism(name, "KERBEROS_V5", AUTH_KERBEROS_V5),
        names_mechanism(name, "NMAS-SAMBA-AUTH", AUTH_NMAS_SAMBA_AUTH),
        names_mechanism(name, "NMAS-AUTHEN", AUTH_NMAS_AUTHEN),
        names_mechanism(name, "NMAS-LOGIN", AUTH_NMAS_LOGIN),
        names_mechanism(name, "NTLM", AUTH_NTLM),
        names_mechanism(name, "OAUTH10A", AUTH_OAUTH10A),
        names_mechanism(name, "OPENID20", AUTH_OPENID20),
        names_mechanism(name, "OTP", AUTH_OTP),
        names_mechanism(name, "SAML20", AUTH_SAML20),
        names_mechanism(name, "SECURID", AUTH_SECURID),
        names_mechanism(name, "SKEY", AUTH_SKEY),
        names_mechanism(name, "SPNEGO", AUTH_SPNEGO),
        names_mechanism(name, "SPNEGO-PLUS", AUTH_SPNEGO_PLUS),
        names_mechanism(name, "SXOVER-PLUS", AUTH_SXOVER_PLUS),
        names_mechanism(name, "CRAM-MD5", AUTH_CRAM_MD5),
        names_mechanism(name, "DIGEST-MD5", AUTH_DIGEST_MD5),
        names_mechanism(name, "LOGIN", AUTH_LOGIN),
        names_mechanism(name, "PLAIN", AUTH_PLAIN),
        names_mechanism(name, "ANONYMOUS", AUTH_ANONYMOUS),
        !is_mechanism_name(name) ==> mechanism_bit(uppercase(name)) is None,
{
    lemma_mechanism_names_differ();
    lemma_mechanisms_spelled(name);
}

/// The word, in letters of any case, is the keyword of an extension, or the start of the one
/// whose keyword is longer than a word may be.
pub open spec fn is_extension_keyword(word: Seq<u8>) -> bool {
    ||| spells(word, "8BITMIME")
    ||| spells(word, "ATRN")
    ||| spells(word, "AUTH")
    ||| spells(word, "BINARYMIME")
    ||| spells(word, "BURL")
    ||| spells(word, "CHECKPOINT")
    ||| spells(word, "CHUNKING")
    ||| spells(word, "CONNEG")
    ||| spells(word, "CONPERM")
    ||| spells(word, "DELIVERBY")
    ||| spells(word, "DSN")
    ||| spells(word, "ETRN")
    ||| spells(word, "EXPN")
    ||| spells(word, "FUTURERELEASE")
    ||| spells(word, "HELP")
    ||| spells(word, "MT-PRIORITY")
    ||| spells(word, "MTRK")
    ||| spells(word, "NO-SOLICITING")
    ||| spells(word, "ONEX")
    ||| spells(word, "PIPELINING")
    ||| spells(word, "REQUIRETLS")
    ||| spells(word, "RRVS")
    ||| spells(word, "SIZE")
    ||| spells(word, "SMTPUTF8")
    ||| spells(word, "STARTTLS")
    ||| spells(word, "VERB")
    ||| spells(word, "ENHANCEDSTATUSCO")
}

/// A word spells a keyword exactly where it has the token of that keyword.
pub proof fn lemma_keywords_spelled(word: Seq<u8>)
    requires
        is_plain_word(word),
    ensures
        is_word(uppercase(word)),
        spells(word, "8BITMIME") == (packed(uppercase(word)) == tokens::_8BITMIME),
        spells(word, "ATRN") == (packed(uppercase(word)) == tokens::ATRN),
        spells(word, "AUTH") == (packed(uppercase(word)) == tokens::AUTH),
        spells(word, "BINARYMIME") == (packed(uppercase(word)) == tokens::BINARYMIME),
        spells(word, "BURL") == (packed(uppercase(word)) == tokens::BURL),
        spells(word, "CHECKPOINT") == (packed(uppercase(word)) == tokens::CHECKPOINT),
        spells(word, "CHUNKING") == (packed(uppercase(word)) == tokens::CHUNKING),
        spells(word, "CONNEG") == (packed(uppercase(word)) == tokens::CONNEG),
        spells(word, "CONPERM") == (packed(uppercase(word)) == tokens::CONPERM),
        spells(word, "DELIVERBY") == (packed(uppercase(word)) == tokens::DELIVERBY),
        spells(word, "DSN") == (packed(uppercase(word)) == tokens::DSN),
        spells(word, "ETRN") == (packed(uppercase(word)) == tokens::ETRN),
        spells(word, "EXPN") == (packed(uppercase(word)) == tokens::EXPN),
        spells(word, "FUTURERELEASE") == (packed(uppercase(word)) == tokens::FUTURERELEASE),
        spells(word, "HELP") == (packed(uppercase(word)) == tokens::HELP),
        spells(word, "MT-PRIORITY") == (packed(uppercase(word)) == tokens::MT_PRIORITY),
        spells(word, "MTRK") == (packed(uppercase(word)) == tokens::MTRK),
        spells(word, "NO-SOLICITING") == (packed(uppercase(word)) == tokens::NO_SOLICITING),
        spells(word, "ONEX") == (packed(uppercase(word)) == tokens::ONEX),
        spells(word, "PIPELINING") == (packed(uppercase(word)) == tokens::PIPELINING),
        spells(word, "REQUIRETLS") == (packed(uppercase(word)) == tokens::REQUIRETLS),
        spells(word, "RRVS") == (packed(uppercase(word)) == tokens::RRVS),
        spells(word, "SIZE") == (packed(uppercase(word)) == tokens::SIZE),
        spells(word, "SMTPUTF8") == (packed(uppercase(word)) == tokens::SMTPUTF8),
        spells(word, "STARTTLS") == (packed(uppercase(word)) == tokens::STARTTLS),
        spells(word, "VERB") == (packed(uppercase(word)) == tokens::VERB),
        spells(word, "ENHANCEDSTATUSCO") == (packed(uppercase(word)) == tokens::ENHANCEDSTATUSCO),
        spells(word, "STANAG4406") == (packed(uppercase(word)) == tokens::STANAG4406),
        spells(word, "NSEP") == (packed(uppercase(word)) == tokens::NSEP),
{
    let upper = uppercase(word);
    assert forall|i: int| 0 <= i < upper.len() implies #[trigger] upper[i] != 0 by {
        assert(is_word_byte(word[i]));
    }
    lemma_tokens(upper);
    assert(spells(word, "8BITMIME") == (upper == bytes_of("8BITMIME"))) by {
        reveal_strlit("8BITMIME");
        lemma_spells(word, "8BITMIME");
    }
    assert(spells(word, "ATRN") == (upper == bytes_of("ATRN"))) by {
        reveal_strlit("ATRN");
        lemma_spells(word, "ATRN");
    }
    assert(spells(word, "AUTH") == (upper == bytes_of("AUTH"))) by {
        reveal_strlit("AUTH");
        lemma_spells(word, "AUTH");
    }
    assert(spells(word, "BINARYMIME") == (upper == bytes_of("BINARYMIME"))) by {
        reveal_strlit("BINARYMIME");
        lemma_spells(word, "BINARYMIME");
    }
    assert(spells(word, "BURL") == (upper == bytes_of("BURL"))) by {
        reveal_strlit("BURL");
        lemma_spells(word, "BURL");
    }
    assert(spells(word, "CHECKPOINT") == (upper == bytes_of("CHECKPOINT"))) by {
        reveal_strlit("CHECKPOINT");
        lemma_spells(word, "CHECKPOINT");
    }
    assert(spells(word, "CHUNKING") == (upper == bytes_of("CHUNKING"))) by {
        reveal_strlit("CHUNKING");
        lemma_spells(word, "CHUNKING");
    }
    assert(spells(word, "CONNEG") == (upper == bytes_of("CONNEG"))) by {
        reveal_strlit("CONNEG");
        lemma_spells(word, "CONNEG");
    }
    assert(spells(word, "CONPERM") == (upper == bytes_of("CONPERM"))) by {
        reveal_strlit("CONPERM");
        lemma_spells(word, "CONPERM");
    }
    assert(spells(word, "DELIVERBY") == (upper == bytes_of("DELIVERBY"))) by {
        reveal_strlit("DELIVERBY");
        lemma_spells(word, "DELIVERBY");
    }
    assert(spells(word, "DSN") == (upper == bytes_of("DSN"))) by {
        reveal_strlit("DSN");
        lemma_spells(word, "DSN");
    }
    assert(spells(word, "ETRN") == (upper == bytes_of("ETRN"))) by {
        reveal_strlit("ETRN");
        lemma_spells(word, "ETRN");
    }
    assert(spells(word, "EXPN") == (upper == bytes_of("EXPN"))) by {
        reveal_strlit("EXPN");
        lemma_spells(word, "EXPN");
    }
    assert(spells(word, "FUTURERELEASE") == (upper == bytes_of("FUTURERELEASE"))) by {
        reveal_strlit("FUTURERELEASE");
        lemma_spells(word, "FUTURERELEASE");
    }
    assert(spells(word, "HELP") == (upper == bytes_of("HELP"))) by {
        reveal_strlit("HELP");
        lemma_spells(word, "HELP");
    }
    assert(spells(word, "MT-PRIORITY") == (upper == bytes_of("MT-PRIORITY"))) by {
        reveal_strlit("MT-PRIORITY");
        lemma_spells(word, "MT-PRIORITY");
    }
    assert(spells(word, "MTRK") == (upper == bytes_of("MTRK"))) by {
        reveal_strlit("MTRK");
        lemma_spells(word, "MTRK");
    }
    assert(spells(word, "NO-SOLICITING") == (upper == bytes_of("NO-SOLICITING"))) by {
        reveal_strlit("NO-SOLICITING");
        lemma_spells(word, "NO-SOLICITING");
    }
    assert(spells(word, "ONEX") == (upper == bytes_of("ONEX"))) by {
        reveal_strlit("ONEX");
        lemma_spells(word, "ONEX");
    }
    assert(spells(word, "PIPELINING") == (upper == bytes_of("PIPELINING"))) by {
        reveal_strlit("PIPELINING");
        lemma_spells(word, "PIPELINING");
    }
    assert(spells(word, "REQUIRETLS") == (upper == bytes_of("REQUIRETLS"))) by {
        reveal_strlit("REQUIRETLS");
        lemma_spells(word, "REQUIRETLS");
    }
    assert(spells(word, "RRVS") == (upper == bytes_of("RRVS"))) by {
        reveal_strlit("RRVS");
        lemma_spells(word, "RRVS");
    }
    assert(spells(word, "SIZE") == (upper == bytes_of("SIZE"))) by {
        reveal_strlit("SIZE");
        lemma_spells(word, "SIZE");
    }
    assert(spells(word, "SMTPUTF8") == (upper == bytes_of("SMTPUTF8"))) by {
        reveal_strlit("SMTPUTF8");
        lemma_spells(word, "SMTPUTF8");
    }
    assert(spells(word, "STARTTLS") == (upper == bytes_of("STARTTLS"))) by {
        reveal_strlit("STARTTLS");
        lemma_spells(word, "STARTTLS");
    }
    assert(spells(word, "VERB") == (upper == bytes_of("VERB"))) by {
        reveal_strlit("VERB");
        lemma_spells(word, "VERB");
    }
    assert(spells(word, "ENHANCEDSTATUSCO") == (upper == bytes_of("ENHANCEDSTATUSCO"))) by {
        reveal_strlit("ENHANCEDSTATUSCO");
        lemma_spells(word, "ENHANCEDSTATUSCO");
    }
    assert(spells(word, "STANAG4406") == (upper == bytes_of("STANAG4406"))) by {
        reveal_strlit("STANAG4406");
        lemma_spells(word, "STANAG4406");
    }
    assert(spells(word, "NSEP") == (upper == bytes_of("NSEP"))) by {
        reveal_strlit("NSEP");
        lemma_spells(word, "NSEP");
    }
}

/// Each keyword, in letters of any case, stands for the bit of its extension, and no other word
/// stands for any.
pub proof fn law_extension_keywords(word: Seq<u8>)
    requires
        is_plain_word(word),
    ensures
        names_extension(word, "8BITMIME", EXT_8BIT_MIME),
        names_extension(word, "ATRN", EXT_ATRN),
        names_extension(word, "AUTH", EXT_AUTH),
        names_extension(word, "BINARYMIME", EXT_BINARY_MIME),
        names_extension(word, "BURL", EXT_BURL),
        names_extension(word, "CHECKPOINT", EXT_CHECKPOINT),
        names_extension(word, "CHUNKING", EXT_CHUNKING),
        names_extension(word, "CONNEG", EXT_CONNEG),
        names_extension(word, "CONPERM", EXT_CONPERM),
        names_extension(word, "DELIVERBY", EXT_DELIVER_BY),
        names_extension(word, "DSN", EXT_DSN),
        names_extension(word, "ETRN", EXT_ETRN),
        names_extension(word, "EXPN", EXT_EXPN),
        names_extension(word, "FUTURERELEASE", EXT_FUTURE_RELEASE),
        names_extension(word, "HELP", EXT_HELP),
        names_extension(word, "MT-PRIORITY", EXT_MT_PRIORITY),
        names_extension(word, "MTRK", EXT_MTRK),
        names_extension(word, "NO-SOLICITING", EXT_NO_SOLICITING),
        names_extension(word, "ONEX", EXT_ONEX),
        names_extension(word, "PIPELINING", EXT_PIPELINING),
        names_extension(word, "REQUIRETLS", EXT_REQUIRE_TLS),
        names_extension(word, "RRVS", EXT_RRVS),
        names_extension(word, "SIZE", EXT_SIZE),
        names_extension(word, "SMTPUTF8", EXT_SMTP_UTF8),
        names_extension(word, "STARTTLS", EXT_START_TLS),
        names_extension(word, "VERB", EXT_VERB),
        names_extension(word, "ENHANCEDSTATUSCO", 0),
        !is_extension_keyword(word) ==> extension_bit(uppercase(word)) == 0,
{
    lemma_keywords_spelled(word);
    lemma_tokens(uppercase(word));
}

} // verus!
