use provisioning_proxy::conproto::{
    accept_request, connect_response, response_line, ProxyRequest, RequestReader,
};
use provisioning_proxy::error::ErrorKind;
use std::collections::BTreeMap;

fn request(command: &str, server_addr: &str) -> ProxyRequest {
    ProxyRequest { command: command.to_string(), server_addr: server_addr.to_string() }
}

#[test]
fn a_line_ends_at_the_first_newline() {
    let mut reader = RequestReader::new();
    assert_eq!(reader.feed(b"{\"a\":1}\n{\"b\":2}\n").unwrap(), true);
    assert_eq!(reader.into_line(), "{\"a\":1}");
}

#[test]
fn a_line_is_put_together_from_chunks() {
    let mut reader = RequestReader::new();
    assert_eq!(reader.feed("h\u{e9}".as_bytes()).unwrap(), false);
    assert_eq!(reader.feed(b"l").unwrap(), false);
    assert_eq!(reader.feed("l\u{f6}".as_bytes()).unwrap(), false);
    assert_eq!(reader.feed(b"\n").unwrap(), true);
    assert_eq!(reader.into_line(), "h\u{e9}ll\u{f6}");
}

#[test]
fn a_close_before_the_newline_is_an_error() {
    let mut reader = RequestReader::new();
    assert_eq!(reader.feed(b"{\"a\"").unwrap(), false);
    let error = reader.feed(b"").unwrap_err();
    assert_eq!(error.kind(), ErrorKind::UnexpectedEof);
    assert_eq!(error.message, "Connection closed before request");
}

#[test]
fn bytes_that_are_no_utf8_are_an_error() {
    let mut reader = RequestReader::new();
    let error = reader.feed(b"a\xffb\n").unwrap_err();
    assert_eq!(error.kind(), ErrorKind::InvalidData);
    assert_eq!(error.message, "Invalid UTF-8: invalid utf-8 sequence of 1 bytes from index 1");
    assert_eq!(reader.into_line(), "");

    // Only what stands before the newline counts.
    let mut reader = RequestReader::new();
    assert_eq!(reader.feed(b"ab\n\xff").unwrap(), true);
    assert_eq!(reader.into_line(), "ab");
}

#[test]
fn a_character_cut_in_two_is_an_error() {
    let mut reader = RequestReader::new();
    let error = reader.feed(b"a\xc3").unwrap_err();
    assert_eq!(error.kind(), ErrorKind::InvalidData);
    assert_eq!(error.message, "Invalid UTF-8: incomplete utf-8 byte sequence from index 1");
}

#[test]
fn a_request_has_to_ask_for_a_connection() {
    let accepted = accept_request(Ok(request("CONNECT", "example.com:443"))).unwrap();
    assert_eq!(accepted.command, "CONNECT");
    assert_eq!(accepted.server_addr, "example.com:443");

    let error = accept_request(Ok(request("connect", "example.com:443"))).unwrap_err();
    assert_eq!(error.kind(), ErrorKind::InvalidData);
    assert_eq!(error.message, "Invalid command: connect");

    let error = accept_request(Err("EOF while parsing".to_string())).unwrap_err();
    assert_eq!(error.kind(), ErrorKind::InvalidData);
    assert_eq!(error.message, "Invalid JSON: EOF while parsing");
}

#[test]
fn only_a_failure_carries_a_reason() {
    let response = connect_response(true, "established");
    assert_eq!(response.status, "SUCCESS");
    assert_eq!(response.reason, None);

    let response = connect_response(false, "refused");
    assert_eq!(response.status, "FAILURE");
    assert_eq!(response.reason, Some("refused".to_string()));
}

#[test]
fn a_response_is_one_line_and_is_read_back() {
    let line = response_line(Ok("{\"status\":\"SUCCESS\"}".to_string())).unwrap();
    assert_eq!(line, "{\"status\":\"SUCCESS\"}\n");

    let mut reader = RequestReader::new();
    assert_eq!(reader.feed(line.as_bytes()).unwrap(), true);
    assert_eq!(reader.into_line(), "{\"status\":\"SUCCESS\"}");

    let error = response_line(Err("bad".to_string())).unwrap_err();
    assert_eq!(error.kind(), ErrorKind::InvalidData);
    assert_eq!(error.message, "JSON serialization error: bad");
}

/// The fields of a request in JSON.
fn parsed(line: &str) -> Result<ProxyRequest, String> {
    let mut fields: BTreeMap<String, String> =
        serde_json::from_str(line).map_err(|error| error.to_string())?;
    let command = fields.remove("command").ok_or("no command")?;
    let server_addr = fields.remove("server_addr").ok_or("no server_addr")?;
    Ok(ProxyRequest { command, server_addr })
}

#[test]
fn a_request_is_accepted_in_whatever_chunks_it_arrives() {
    let long = "a\n\"\\b".repeat(500);
    for server_addr in ["example.com:443", "", "\n", "\"", long.as_str()] {
        let fields = BTreeMap::from([("command", "CONNECT"), ("server_addr", server_addr)]);
        let json = serde_json::to_string(&fields).unwrap();
        let sent = format!("{}\n", json);
        for (size, rest) in [(1, ""), (2, ""), (3, "x"), (7, "\n"), (1024, "more\n"), (9999, "")] {
            let bytes = format!("{}{}", sent, rest);
            let mut reader = RequestReader::new();
            let complete = bytes.as_bytes().chunks(size).any(|chunk| reader.feed(chunk).unwrap());
            assert!(complete);
            let line = reader.into_line();
            assert_eq!(line, json);
            let request = accept_request(parsed(&line)).unwrap();
            assert_eq!(request.command, "CONNECT");
            assert_eq!(request.server_addr, server_addr);
        }
    }
}

#[test]
fn a_response_is_one_line_whatever_its_message() {
    let mut successes = Vec::new();
    for message in ["refused", "", "two\nlines", "a \"quote\"", "h\u{e9}\u{10a}\u{2028}\n"] {
        for success in [true, false] {
            let response = connect_response(success, message);
            let mut fields = BTreeMap::from([("status", response.status.as_str())]);
            if let Some(reason) = &response.reason {
                fields.insert("reason", reason.as_str());
            }
            let line = response_line(Ok(serde_json::to_string(&fields).unwrap())).unwrap();
            assert_eq!(line.as_bytes().iter().position(|b| *b == b'\n'), Some(line.len() - 1));

            let read: BTreeMap<String, String> = serde_json::from_str(line.trim_end()).unwrap();
            if success {
                assert_eq!(read["status"], "SUCCESS");
                assert!(!read.contains_key("reason"));
                successes.push(line);
            } else {
                assert_eq!(read["status"], "FAILURE");
                assert_eq!(read["reason"], message);
            }
        }
    }
    assert!(successes.iter().all(|line| *line == successes[0]));
}
