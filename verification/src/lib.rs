//! The client side of SMTP: reading the replies that a server sends.
//!
//! [`ResponseReceiver`] reads replies of any kind from bytes that arrive in pieces of any size.
//! [`EhloResponse`] is the answer to EHLO, with what it tells of the server.

pub mod ascii;
pub mod ehlo;
pub mod ehlo_laws;
pub mod line_laws;
pub mod name_laws;
pub mod notation;
pub mod offer_laws;
pub mod offers;
pub mod reader;
pub mod receiver;
pub mod receiver_laws;
pub mod scan_laws;
pub mod text;
pub mod tokens;
pub mod types;

pub use offers::{
    AUTH_9798_M_DSA_SHA1, AUTH_9798_M_ECDSA_SHA1, AUTH_9798_M_RSA_SHA1_ENC, AUTH_9798_U_DSA_SHA1,
    AUTH_9798_U_ECDSA_SHA1, AUTH_9798_U_RSA_SHA1_ENC, AUTH_ANONYMOUS, AUTH_CRAM_MD5,
    AUTH_DIGEST_MD5, AUTH_EAP_AES128, AUTH_EAP_AES128_PLUS, AUTH_ECDH_X25519_CHALLENGE,
    AUTH_ECDSA_NIST256P_CHALLENGE, AUTH_EXTERNAL, AUTH_GS2_KRB5, AUTH_GS2_KRB5_PLUS, AUTH_GSSAPI,
    AUTH_GSS_SPNEGO, AUTH_KERBEROS_V4, AUTH_KERBEROS_V5, AUTH_LOGIN, AUTH_NMAS_AUTHEN,
    AUTH_NMAS_LOGIN, AUTH_NMAS_SAMBA_AUTH, AUTH_NTLM, AUTH_OAUTH10A, AUTH_OAUTHBEARER,
    AUTH_OPENID20, AUTH_OTP, AUTH_PLAIN, AUTH_SAML20, AUTH_SCRAM_SHA_1, AUTH_SCRAM_SHA_1_PLUS,
    AUTH_SCRAM_SHA_256, AUTH_SCRAM_SHA_256_PLUS, AUTH_SECURID, AUTH_SKEY, AUTH_SPNEGO,
    AUTH_SPNEGO_PLUS, AUTH_SXOVER_PLUS, AUTH_XOAUTH, AUTH_XOAUTH2, EXT_8BIT_MIME, EXT_ATRN,
    EXT_AUTH, EXT_BINARY_MIME, EXT_BURL, EXT_CHECKPOINT, EXT_CHUNKING, EXT_CONNEG, EXT_CONPERM,
    EXT_DELIVER_BY, EXT_DSN, EXT_ENHANCED_STATUS_CODES, EXT_ETRN, EXT_EXPN, EXT_FUTURE_RELEASE,
    EXT_HELP, EXT_MTRK, EXT_MT_PRIORITY, EXT_NO_SOLICITING, EXT_ONEX, EXT_PIPELINING,
    EXT_REQUIRE_TLS, EXT_RRVS, EXT_SIZE, EXT_SMTP_UTF8, EXT_START_TLS, EXT_VERB,
};
pub use receiver::{ResponseReceiver, MAX_REPONSE_LENGTH};
pub use types::{EhloResponse, Error, MtPriority, Response};
