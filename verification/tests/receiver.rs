use smtp_proto::{Error, Response, ResponseReceiver};

#[test]
fn parse_response() {
    let mut all_responses = Vec::new();
    let mut all_parsed_responses = Vec::new();

    for (response, parsed_response, _) in [
        (
            "250 2.1.1 Originator <ned@ymir.claremont.edu> ok\n",
            Response {
                code: [2, 5, 0],
                esc: [2, 1, 1],
                message: "Originator <ned@ymir.claremont.edu> ok".to_string(),
            },
            true,
        ),
        (
            "551-5.7.1 Forwarding to remote hosts disabled\n\
             551 5.7.1 Select another host to act as your forwarder\n",
            Response {
                code: [5, 5, 1],
                esc: [5, 7, 1],
                message: "Forwarding to remote hosts disabled\n\
                          Select another host to act as your forwarder"
                    .to_string(),
            },
            true,
        ),
        (
            "550-mailbox unavailable\n\
             550 user has moved with no forwarding address\n",
            Response {
                code: [5, 5, 0],
                esc: [0, 0, 0],
                message: "mailbox unavailable\nuser has moved with no forwarding address"
                    .to_string(),
            },
            false,
        ),
        (
            "550-mailbox unavailable\n\
             550 user has moved with no forwarding address\n",
            Response {
                code: [5, 5, 0],
                esc: [0, 0, 0],
                message: "mailbox unavailable\nuser has moved with no forwarding address"
                    .to_string(),
            },
            true,
        ),
        (
            "432-6.8.9\n\
             432-6.8.9 Hello\n\
             432-6.8.9 \n\
             432-6.8.9 ,\n\
             432-\n\
             432-6\n\
             432-6.\n\
             432-6.8\n\
             432-6.8.9\n\
             432 6.8.9 World!\n",
            Response {
                code: [4, 3, 2],
                esc: [6, 8, 9],
                message: "\nHello\n\n,\n\n\n\n\n\nWorld!".to_string(),
            },
            true,
        ),
        (
            "250-Missing space\n\
             250\n\
             250 Ignore this",
            Response {
                code: [2, 5, 0],
                esc: [0, 0, 0],
                message: "Missing space\n".to_string(),
            },
            true,
        ),
    ] {
        assert_eq!(
            parsed_response,
            ResponseReceiver::default()
                .parse(&mut response.as_bytes().iter())
                .unwrap(),
            "failed for {:?}",
            response
        );
        all_responses.extend_from_slice(response.as_bytes());
        all_parsed_responses.push(parsed_response);
    }

    // Test receiver
    for chunk_size in [5, 10, 20, 30, 40, 50, 60] {
        let mut receiver = ResponseReceiver::default();
        let mut parsed_response = all_parsed_responses.clone().into_iter();
        for chunk in all_responses.chunks(chunk_size) {
            let mut bytes = chunk.iter();
            loop {
                match receiver.parse(&mut bytes) {
                    Ok(response) => {
                        assert_eq!(
                            parsed_response.next(),
                            Some(response),
                            "chunk size {}",
                            chunk_size
                        );
                        receiver.reset();
                    }
                    Err(Error::NeedsMoreData { .. }) => {
                        break;
                    }
                    err => panic!("Unexpected error {:?} for chunk size {}", err, chunk_size),
                }
            }
        }
    }
}

fn receive(bytes: &[u8]) -> Result<Response<String>, Error> {
    ResponseReceiver::default().parse(&mut bytes.iter())
}

fn response(code: [u8; 3], esc: [u8; 3], message: &str) -> Response<String> {
    Response {
        code,
        esc,
        message: message.to_string(),
    }
}

#[test]
fn reply_is_read_back_with_either_line_end() {
    let expected = response([5, 5, 4], [5, 12, 255], "first\n second\n\n4th");
    for eol in ["\n", "\r\n"] {
        let mut input = String::new();
        for (separator, text) in [("-", "first"), ("-", " second"), ("-", ""), (" ", "4th")] {
            input.push_str(&format!("554{}5.12.300 {}{}", separator, text, eol));
        }
        input.push_str("250 next");
        let mut bytes = input.as_bytes().iter();
        assert_eq!(
            ResponseReceiver::default().parse(&mut bytes),
            Ok(expected.clone())
        );
        assert_eq!(bytes.as_slice(), b"250 next");
    }
}

#[test]
fn every_cut_gives_the_same_reply() {
    let input = b"432-4.7.1 Hello\r\n432-4.7.1 there\r\n432 4.7.1 World\r\n";
    let expected = response([4, 3, 2], [4, 7, 1], "Hello\nthere\nWorld");
    for cut in 0..input.len() {
        let mut receiver = ResponseReceiver::default();
        let mut first = input[..cut].iter();
        assert_eq!(
            receiver.parse(&mut first),
            Err(Error::NeedsMoreData { bytes_left: 0 })
        );
        assert_eq!(first.as_slice(), b"");
        let mut second = input[cut..].iter();
        assert_eq!(receiver.parse(&mut second), Ok(expected.clone()));
        assert_eq!(second.as_slice(), b"");
    }
}

#[test]
fn enhanced_status_stops_at_a_zero() {
    assert_eq!(receive(b"250 2.0.0 OK\n"), Ok(response([2, 5, 0], [2, 0, 0], ".0 OK")));
    assert_eq!(receive(b"250 2.1.0 OK\n"), Ok(response([2, 5, 0], [2, 1, 0], "OK")));
    assert_eq!(receive(b"250 7bit OK\n"), Ok(response([2, 5, 0], [7, 0, 0], "bit OK")));
    assert_eq!(receive(b"250  OK\n"), Ok(response([2, 5, 0], [0, 0, 0], "OK")));
    assert_eq!(receive(b"250 .OK\n"), Ok(response([2, 5, 0], [0, 0, 0], ".OK")));
    assert_eq!(
        receive(b"550-no\n550 5.1.1 such user\n"),
        Ok(response([5, 5, 0], [0, 0, 0], "no\n.1.1 such user"))
    );
}

#[test]
fn code_of_the_first_line_counts() {
    assert_eq!(
        receive(b"250-one\n999 two\n"),
        Ok(response([2, 5, 0], [0, 0, 0], "one\ntwo"))
    );
}

#[test]
fn codes_of_later_lines_are_read_over() {
    let mut bytes = b"432-6.8.9 a\n999-1.2\n111-7.,\r\n000-.5\n432 6.8.255\tb\r\n250".iter();
    assert_eq!(
        ResponseReceiver::default().parse(&mut bytes),
        Ok(response([4, 3, 2], [6, 8, 9], "a\n\n,\n\nb"))
    );
    assert_eq!(bytes.as_slice(), b"250");
    let mut bytes = b"250-2.1\n999-3.4\r\n550\r\n".iter();
    assert_eq!(
        ResponseReceiver::default().parse(&mut bytes),
        Ok(response([2, 5, 0], [2, 1, 0], "\n\n"))
    );
    assert_eq!(bytes.as_slice(), b"");
}

#[test]
fn line_ends_make_no_difference() {
    for input in [
        "250 OK\nrest\n",
        "250-2.1.5 one\n250\n\n",
        "\n250 OK\n",
        "2\n50 OK\n",
        "250-\n250-6\n250-6.\n250-6.8\n250 6.8.9\n",
        "250+OK\n",
        "250-one\ntwo\n",
        "250-a\rb\n\r\n",
        "250-open\n",
        "",
    ] {
        let with_returns = input.replace('\n', "\r\n");
        let mut receiver = ResponseReceiver::default();
        let mut receiver2 = ResponseReceiver::default();
        let mut bytes = input.as_bytes().iter();
        let mut bytes2 = with_returns.as_bytes().iter();
        let result = receiver.parse(&mut bytes);
        assert_eq!(receiver2.parse(&mut bytes2), result, "failed for {:?}", input);
        if result.is_ok() {
            let rest = String::from_utf8(bytes.as_slice().to_vec()).unwrap();
            assert_eq!(bytes2.as_slice(), rest.replace('\n', "\r\n").as_bytes());
        }
        // Both receivers go on in the same way.
        let next = b"250 \n250 next\n";
        assert_eq!(
            receiver2.parse(&mut next.iter()),
            receiver.parse(&mut next.iter()),
            "failed for {:?}",
            input
        );
    }
}

#[test]
fn bare_code_ends_a_reply() {
    assert_eq!(receive(b"220\n"), Ok(response([2, 2, 0], [0, 0, 0], "")));
    assert_eq!(receive(b"220\r\r\n"), Ok(response([2, 2, 0], [0, 0, 0], "")));
}

#[test]
fn receiver_can_start_behind_the_code() {
    let mut receiver = ResponseReceiver::from_code([3, 5, 4]);
    assert_eq!(
        receiver.parse(&mut b" Go ahead\r\n".iter()),
        Ok(response([3, 5, 4], [0, 0, 0], "Go ahead"))
    );
    let mut fresh = ResponseReceiver::default();
    assert!(fresh.parse(&mut b"354".iter()).is_err());
    assert_eq!(
        fresh.parse(&mut b" Go ahead\r\n".iter()),
        Ok(response([3, 5, 4], [0, 0, 0], "Go ahead"))
    );
}

#[test]
fn refused_byte_is_taken_and_changes_nothing() {
    let mut receiver = ResponseReceiver::default();
    let mut bytes = b"2x50 OK\n".iter();
    assert_eq!(
        receiver.parse(&mut bytes),
        Err(Error::SyntaxError {
            syntax: "Invalid response code"
        })
    );
    assert_eq!(bytes.as_slice(), b"50 OK\n");
    assert_eq!(
        receiver.parse(&mut bytes),
        Ok(response([2, 5, 0], [0, 0, 0], "OK"))
    );
    assert_eq!(
        receive(b"250+OK\n"),
        Err(Error::SyntaxError {
            syntax: "Invalid response separator"
        })
    );
}

#[test]
fn text_has_a_longest_length() {
    let text = "a".repeat(4096);
    let fits = format!("250 {}\n", text);
    assert_eq!(
        receive(fits.as_bytes()),
        Ok(response([2, 5, 0], [0, 0, 0], &text))
    );
    let too_long = format!("250 {}a\n", text);
    let mut receiver = ResponseReceiver::default();
    let mut bytes = too_long.as_bytes().iter();
    assert_eq!(receiver.parse(&mut bytes), Err(Error::ResponseTooLong));
    assert_eq!(bytes.as_slice(), b"\n");
    // The text stays, and so the codes of what follows do not count.
    receiver.reset();
    assert_eq!(
        receiver.parse(&mut b"220\n".iter()),
        Ok(response([0, 0, 0], [0, 0, 0], &text))
    );
}

#[test]
fn line_feeds_do_not_count_against_the_length() {
    let text = "b".repeat(4096);
    let input = format!("250-{}\n250-\n250 c\n", text);
    let expected = format!("{}\n\nc", text);
    assert_eq!(
        receive(input.as_bytes()),
        Ok(response([2, 5, 0], [0, 0, 0], &expected))
    );
    let input = format!("250-{}\n250 cd\n", text);
    assert_eq!(receive(input.as_bytes()), Err(Error::ResponseTooLong));
}

#[test]
fn reset_makes_a_receiver_as_good_as_new() {
    let mut receiver = ResponseReceiver::default();
    let mut bytes = b"250 2.1.5 OK\n550 no\n".iter();
    assert_eq!(
        receiver.parse(&mut bytes),
        Ok(response([2, 5, 0], [2, 1, 5], "OK"))
    );
    receiver.reset();
    assert_eq!(
        receiver.parse(&mut bytes),
        Ok(response([5, 5, 0], [0, 0, 0], "no"))
    );
}

#[test]
fn text_that_is_not_utf8_is_repaired() {
    assert_eq!(
        receive(b"250 caf\xe9 ok\n"),
        Ok(response([2, 5, 0], [0, 0, 0], "caf\u{fffd} ok"))
    );
    assert_eq!(
        receive("250 café ok\n".as_bytes()),
        Ok(response([2, 5, 0], [0, 0, 0], "café ok"))
    );
}
