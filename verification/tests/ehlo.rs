use smtp_proto::{
    AUTH_DIGEST_MD5, AUTH_ECDSA_NIST256P_CHALLENGE, AUTH_GSSAPI, AUTH_KERBEROS_V4, AUTH_LOGIN,
    AUTH_PLAIN, AUTH_SCRAM_SHA_256_PLUS, EXT_8BIT_MIME, EXT_ATRN, EXT_AUTH, EXT_BINARY_MIME,
    EXT_BURL, EXT_CHECKPOINT, EXT_CHUNKING, EXT_CONNEG, EXT_CONPERM, EXT_DELIVER_BY, EXT_DSN,
    EXT_ENHANCED_STATUS_CODES, EXT_ETRN, EXT_EXPN, EXT_FUTURE_RELEASE, EXT_HELP, EXT_MTRK,
    EXT_MT_PRIORITY, EXT_NO_SOLICITING, EXT_ONEX, EXT_PIPELINING, EXT_REQUIRE_TLS, EXT_RRVS,
    EXT_SIZE, EXT_SMTP_UTF8, EXT_START_TLS, EXT_VERB,
};
use smtp_proto::{EhloResponse, Error, MtPriority};

#[test]
fn parse_ehlo() {
    for item in [
        (
            "250-dbc.mtview.ca.us says hello\n\
             250-8BITMIME\n\
             250-ATRN\n\
             250-AUTH GSSAPI DIGEST-MD5 PLAIN\n\
             250-BINARYMIME\n\
             250-BURL imap\n\
             250-CHECKPOINT\n\
             250-CHUNKING\n\
             250-CONNEG\n\
             250-CONPERM\n\
             250-DELIVERBY\n\
             250-DSN\n\
             250-ENHANCEDSTATUSCODES\n\
             250-ETRN\n\
             250-EXPN\n\
             250-FUTURERELEASE 1234 5678\n\
             250-HELP\n\
             250-MT-PRIORITY\n\
             250-MTRK\n\
             250-NO-SOLICITING net.example:ADV\n\
             250-PIPELINING\n\
             250-REQUIRETLS\n\
             250-RRVS\n\
             250-SIZE 1000000\n\
             250-SMTPUTF8 ignore\n\
             250 STARTTLS\n",
            Ok(EhloResponse {
                hostname: "dbc.mtview.ca.us".to_string(),
                capabilities: EXT_8BIT_MIME
                    | EXT_ATRN
                    | EXT_AUTH
                    | EXT_BINARY_MIME
                    | EXT_BURL
                    | EXT_CHECKPOINT
                    | EXT_CHUNKING
                    | EXT_CONNEG
                    | EXT_CONPERM
                    | EXT_DELIVER_BY
                    | EXT_DSN
                    | EXT_ENHANCED_STATUS_CODES
                    | EXT_ETRN
                    | EXT_EXPN
                    | EXT_FUTURE_RELEASE
                    | EXT_HELP
                    | EXT_MT_PRIORITY
                    | EXT_MTRK
                    | EXT_NO_SOLICITING
                    | EXT_PIPELINING
                    | EXT_REQUIRE_TLS
                    | EXT_RRVS
                    | EXT_SIZE
                    | EXT_SMTP_UTF8
                    | EXT_START_TLS,
                auth_mechanisms: AUTH_GSSAPI | AUTH_DIGEST_MD5 | AUTH_PLAIN,
                deliver_by: 0,
                future_release_interval: 1234,
                future_release_datetime: 5678,
                mt_priority: MtPriority::Mixer,
                no_soliciting: Some("net.example:ADV".to_string()),
                size: 1000000,
            }),
        ),
        (
            "250-\n\
             250-DELIVERBY 240\n\
             250-FUTURERELEASE 123\n\
             250-MT-PRIORITY MIXER\n\
             250-NO-SOLICITING\n\
             250-SIZE\n\
             250 SMTPUTF8\n",
            Ok(EhloResponse {
                hostname: "".to_string(),
                capabilities: EXT_DELIVER_BY
                    | EXT_FUTURE_RELEASE
                    | EXT_MT_PRIORITY
                    | EXT_NO_SOLICITING
                    | EXT_SIZE
                    | EXT_SMTP_UTF8,
                auth_mechanisms: 0,
                deliver_by: 240,
                future_release_interval: 123,
                future_release_datetime: 0,
                mt_priority: MtPriority::Mixer,
                no_soliciting: None,
                size: 0,
            }),
        ),
        (
            "250-dbc.mtview.ca.us says hello\n\
             250-FUTURERELEASE\n\
             250 MT-PRIORITY STANAG4406\n",
            Ok(EhloResponse {
                hostname: "dbc.mtview.ca.us".to_string(),
                capabilities: EXT_FUTURE_RELEASE | EXT_MT_PRIORITY,
                auth_mechanisms: 0,
                deliver_by: 0,
                future_release_interval: 0,
                future_release_datetime: 0,
                mt_priority: MtPriority::Stanag4406,
                no_soliciting: None,
                size: 0,
            }),
        ),
        (
            "523-Massive\n\
             523-Error\n\
             523 Message\n",
            Err(Error::UnknownCommand),
        ),
    ] {
        let (response, parsed_response): (&str, Result<EhloResponse<String>, Error>) = item;

        for replacement in ["", "\r\n", " \n", " \r\n"] {
            let response = if !replacement.is_empty() && parsed_response.is_ok() {
                response.replace('\n', replacement)
            } else {
                response.to_string()
            };
            assert_eq!(
                parsed_response,
                EhloResponse::parse(&mut response.as_bytes().iter()),
                "failed for {:?}",
                response
            );
        }
    }
}

fn parse(answer: &str) -> Result<EhloResponse<String>, Error> {
    EhloResponse::parse(&mut answer.as_bytes().iter())
}

fn named(hostname: &str) -> EhloResponse<String> {
    EhloResponse {
        hostname: hostname.to_string(),
        ..EhloResponse::default()
    }
}

#[test]
fn answer_of_one_line() {
    assert_eq!(parse("250 mx.example.org\n"), Ok(named("mx.example.org")));
    assert_eq!(parse("250-mx.example.org at your service\r\n250\n"), Ok(named("mx.example.org")));
    assert_eq!(parse("250\n"), Ok(EhloResponse::default()));
}

#[test]
fn answer_leaves_what_follows() {
    let mut bytes = b"250-mx\n250 DSN\n250 2.1.0 OK\n".iter();
    assert_eq!(
        EhloResponse::parse(&mut bytes),
        Ok(EhloResponse {
            capabilities: EXT_DSN,
            ..named("mx")
        })
    );
    assert_eq!(bytes.as_slice(), b"250 2.1.0 OK\n");
}

#[test]
fn every_cut_answer_needs_more_data() {
    let answer = "250-mx hello\n250-AUTH PLAIN LOGIN\n250-ENHANCEDSTATUSCODES\n250-SIZE 10\n\
                  250-NO-SOLICITING a:B\n250-MT-PRIORITY NSEP\n250 FUTURERELEASE 1 2\n";
    assert!(parse(answer).is_ok());
    for cut in 0..answer.len() {
        let mut bytes = answer.as_bytes()[..cut].iter();
        assert_eq!(
            EhloResponse::parse(&mut bytes),
            Err(Error::NeedsMoreData { bytes_left: cut })
        );
        assert_eq!(bytes.as_slice(), b"");
    }
}

#[test]
fn other_codes_are_refused() {
    for code in ["220", "251", "350", "421", "500", "550"] {
        let answer = format!("{} mx\n", code);
        let mut bytes = answer.as_bytes().iter();
        assert_eq!(EhloResponse::parse(&mut bytes), Err(Error::UnknownCommand));
        assert_eq!(bytes.as_slice(), b" mx\n");
    }
    assert_eq!(parse("250-mx\n500 DSN\n"), Err(Error::UnknownCommand));
}

#[test]
fn unexpected_tokens_are_refused() {
    let error = Err(Error::SyntaxError {
        syntax: "unexpected token",
    });
    assert_eq!(parse("x50 mx\n"), error);
    assert_eq!(parse("2x0 mx\n"), error);
    assert_eq!(parse("25x mx\n"), error);
    assert_eq!(parse("250+mx\n"), error);
    assert_eq!(parse("250\r\n"), error);
    let mut bytes = b"2x0 mx\n".iter();
    assert_eq!(EhloResponse::parse(&mut bytes), error);
    assert_eq!(bytes.as_slice(), b"0 mx\n");
}

#[test]
fn host_name_has_a_longest_length() {
    let host = "h".repeat(4096);
    assert_eq!(parse(&format!("250 {}\n", host)), Ok(named(&host)));
    assert_eq!(parse(&format!("250 {}h\n", host)), Err(Error::ResponseTooLong));
}

#[test]
fn blanks_at_the_end_and_case_do_not_count() {
    let plain = parse(
        "250-mx\n250-AUTH LOGIN\n250-SIZE 7\n250-ENHANCEDSTATUSCODES\n250 MT-PRIORITY STANAG4406\n",
    );
    assert_eq!(
        plain,
        Ok(EhloResponse {
            capabilities: EXT_AUTH | EXT_SIZE | EXT_ENHANCED_STATUS_CODES | EXT_MT_PRIORITY,
            auth_mechanisms: AUTH_LOGIN,
            size: 7,
            mt_priority: MtPriority::Stanag4406,
            ..named("mx")
        })
    );
    assert_eq!(
        parse(
            "250-mx\r \n250-auth  Login \r\n250-sIze  7 \n250-EnhancedStatusCodes\r\n\
             250 mt-priority stanag4406  \r\n"
        ),
        plain
    );
}

#[test]
fn carriage_returns_inside_fields_are_passed_over() {
    assert_eq!(
        parse("250-m\rx\n250-SI\rZE 1\r2\n250-\rENHANCEDSTATUSCO\rDES\n250 AUTH PL\rAIN\n"),
        Ok(EhloResponse {
            capabilities: EXT_SIZE | EXT_ENHANCED_STATUS_CODES | EXT_AUTH,
            auth_mechanisms: AUTH_PLAIN,
            size: 12,
            ..named("mx")
        })
    );
    assert_eq!(parse("250-mx\n250 ENHANCEDSTATUSCOD\rES\n"), Ok(named("mx")));
    assert_eq!(parse("250-mx\n250 ENHANCEDSTATUSCODE\rS\n"), Ok(named("mx")));
}

#[test]
fn text_of_no_soliciting_keeps_its_case() {
    assert_eq!(
        parse("250-mx\n250 no-soliciting  Net.Example:adv more\n"),
        Ok(EhloResponse {
            capabilities: EXT_NO_SOLICITING,
            no_soliciting: Some("Net.Example:adv".to_string()),
            ..named("mx")
        })
    );
}

#[test]
fn text_and_host_name_that_are_not_utf8_are_repaired() {
    let mut bytes = b"250-m\xff\n250 NO-SOLICITING \xe9a\n".iter();
    assert_eq!(
        EhloResponse::parse(&mut bytes),
        Ok(EhloResponse {
            capabilities: EXT_NO_SOLICITING,
            no_soliciting: Some("\u{fffd}a".to_string()),
            ..named("m\u{fffd}")
        })
    );
}

#[test]
fn unknown_keywords_tell_nothing() {
    assert_eq!(
        parse("250-mx\n250-XCLIENT NAME\n250-SIZES 7\n250-\n250-ABCDEFGHIJKLMNOPQRSTU\n250 XYZ\n"),
        Ok(named("mx"))
    );
}

#[test]
fn longest_keyword_is_told_by_its_first_letters() {
    let with_codes = Ok(EhloResponse {
        capabilities: EXT_ENHANCED_STATUS_CODES,
        ..named("mx")
    });
    assert_eq!(parse("250-mx\n250 ENHANCEDSTATUSCODES\n"), with_codes);
    assert_eq!(parse("250-mx\n250 ENHANCEDSTATUSCODESX\n"), with_codes);
    for word in ["CO", "COD", "CODE", "CODX", "CODEX", "COX"] {
        assert_eq!(
            parse(&format!("250-mx\n250-ENHANCEDSTATUS{}\n250 DSN\n", word)),
            Ok(EhloResponse {
                capabilities: EXT_DSN,
                ..named("mx")
            })
        );
    }
}

#[test]
fn numbers_are_cut_at_the_first_other_byte() {
    assert_eq!(
        parse("250-mx\n250-SIZE 12M\n250-DELIVERBY=30;x\n250-FUTURERELEASE 1x22\n250 VERB\n"),
        Ok(EhloResponse {
            capabilities: EXT_SIZE | EXT_DELIVER_BY | EXT_FUTURE_RELEASE | EXT_VERB,
            size: 12,
            deliver_by: 30,
            future_release_interval: 1,
            future_release_datetime: 22,
            ..named("mx")
        })
    );
}

#[test]
fn numbers_that_are_too_large_or_missing_are_zero() {
    let largest = usize::MAX - 1;
    assert_eq!(
        parse(&format!("250-mx\n250 SIZE {}\n", largest)).map(|response| response.size),
        Ok(largest)
    );
    assert_eq!(
        parse(&format!("250-mx\n250 SIZE {}\n", usize::MAX)).map(|response| response.size),
        Ok(0)
    );
    assert_eq!(
        parse("250-mx\n250 SIZE 999999999999999999999999999999\n").map(|response| response.size),
        Ok(0)
    );
    assert_eq!(parse("250-mx\n250 SIZE x9\n").map(|response| response.size), Ok(0));
}

#[test]
fn last_line_with_a_parameter_counts() {
    assert_eq!(
        parse("250-mx\n250-SIZE 1\n250-SIZE 2\n250-ONEX\n250 SIZE\n"),
        Ok(EhloResponse {
            capabilities: EXT_SIZE | EXT_ONEX,
            size: 0,
            ..named("mx")
        })
    );
}

#[test]
fn mechanisms_of_all_lines_add_up() {
    assert_eq!(
        parse(
            "250-mx\n250-AUTH scram-sha-256-plus KERBEROS_V4 NOSUCH PLAINS\n250-AUTH=LOGIN\n\
             250 AUTH ECDSA-NIST256P-CHALLENGE\n"
        ),
        Ok(EhloResponse {
            capabilities: EXT_AUTH,
            auth_mechanisms: AUTH_SCRAM_SHA_256_PLUS
                | AUTH_KERBEROS_V4
                | AUTH_LOGIN
                | AUTH_ECDSA_NIST256P_CHALLENGE,
            ..named("mx")
        })
    );
}
