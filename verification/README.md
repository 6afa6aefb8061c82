# smtp_proto

The client side of SMTP, verified with Verus: reading the replies that a server sends.

- `receiver.rs` reads replies of any kind byte by byte, from pieces of any size;
  `receiver_laws.rs` proves what holds over all replies and all ways to cut them.
- `ehlo.rs` reads the answer to EHLO: the name of the server and the extensions that it offers;
  `ehlo_laws.rs` and `line_laws.rs` prove what holds over all answers.
- `reader.rs` reads the words, numbers and texts on the lines of an answer, `tokens.rs` packs
  keywords into integers, and `offers.rs` lists the extensions and the SASL mechanisms.
- `types.rs` holds the replies and the errors, `ascii.rs` the bytes that carry meaning.
- `text.rs` turns bytes into text. Two functions of the standard library are trusted there:
  `String::from_utf8_lossy` and `slice::Iter::as_slice`.
