//! The connection protocol: one line of JSON from the client, one line of JSON back.
use crate::error::{result_view, ErrorKind, ErrorView, ProxyError};
use vstd::prelude::*;
use vstd::slice::slice_subrange;
use vstd::string::*;
use vstd::utf8::*;

verus! {

/// The byte that ends a line.
pub const NEWLINE: u8 = 10;

/// How many bytes of a request are read at a time.
pub const REQUEST_BUFFER_SIZE: usize = 1024;

/// Protocol message sent by the client to request a TCP connection
#[derive(Debug)]
pub struct ProxyRequest {
    pub command: String,
    pub server_addr: String,
}

/// Protocol response sent by the proxy to the client
#[derive(Debug)]
pub struct ProxyResponse {
    pub status: String,
    pub reason: Option<String>,
}

/// The contents of a response.
pub struct ResponseView {
    pub status: Seq<char>,
    pub reason: Option<Seq<char>>,
}

impl View for ProxyResponse {
    type V = ResponseView;

    open spec fn view(&self) -> ResponseView {
        ResponseView {
            status: self.status@,
            reason: match self.reason {
                Some(reason) => Some(reason@),
                None => None,
            },
        }
    }
}

/// What the error of `std::str::from_utf8` says of bytes that are no UTF-8.
pub uninterp spec fn utf8_error_text(bytes: Seq<u8>) -> Seq<char>;

/// Calls `std::str::from_utf8`. Trusted: it succeeds on valid UTF-8 and on nothing else, gives
/// the characters that the bytes encode, and the text of its error depends on the bytes alone.
/// What that text is stays unsaid.
#[verifier::external_body]
fn from_utf8(bytes: &[u8]) -> (text: Result<String, String>)
    ensures
        match text {
            Ok(text) => valid_utf8(bytes@) && text@ == decode_utf8(bytes@),
            Err(error) => !valid_utf8(bytes@) && error@ == utf8_error_text(bytes@),
        },
{
    match std::str::from_utf8(bytes) {
        Ok(text) => Ok(text.to_string()),
        Err(error) => Err(error.to_string()),
    }
}

/// The position of the first newline.
pub open spec fn newline_position(bytes: Seq<u8>) -> Option<int>
    decreases bytes.len(),
{
    if bytes.len() == 0 {
        None
    } else {
        match newline_position(bytes.drop_last()) {
            Some(i) => Some(i),
            None => if bytes.last() == NEWLINE {
                Some(bytes.len() - 1)
            } else {
                None
            },
        }
    }
}

/// The part of a chunk that belongs to the line: what stands before the first newline.
pub open spec fn line_part(chunk: Seq<u8>) -> Seq<u8> {
    match newline_position(chunk) {
        Some(i) => chunk.take(i),
        None => chunk,
    }
}

/// What a chunk makes of the line read so far: the longer line and whether it is complete, or the
/// error. An empty chunk means that the peer has closed the connection.
pub open spec fn feed(line: Seq<char>, chunk: Seq<u8>) -> Result<(Seq<char>, bool), ErrorView> {
    if chunk.len() == 0 {
        Err(
            ErrorView {
                kind: ErrorKind::UnexpectedEof,
                message: "Connection closed before request"@,
            },
        )
    } else if valid_utf8(line_part(chunk)) {
        Ok((line + decode_utf8(line_part(chunk)), newline_position(chunk) is Some))
    } else {
        Err(
            ErrorView {
                kind: ErrorKind::InvalidData,
                message: "Invalid UTF-8: "@ + utf8_error_text(line_part(chunk)),
            },
        )
    }
}

/// A newline found among the first `n` bytes is the first among all.
proof fn lemma_newline_prefix(bytes: Seq<u8>, n: int)
    requires
        0 <= n <= bytes.len(),
        newline_position(bytes.take(n)) is Some,
    ensures
        newline_position(bytes) == newline_position(bytes.take(n)),
    decreases bytes.len(),
{
    if n == bytes.len() {
        assert(bytes.take(n) =~= bytes);
    } else {
        assert(bytes.drop_last().take(n) =~= bytes.take(n));
        lemma_newline_prefix(bytes.drop_last(), n);
    }
}

/// Finds the first newline.
fn find_newline(bytes: &[u8]) -> (position: Option<usize>)
    ensures
        match position {
            Some(i) => i < bytes@.len() && newline_position(bytes@) == Some(i as int),
            None => newline_position(bytes@) is None,
        },
{
    let mut i: usize = 0;
    while i < bytes.len()
        invariant
            i <= bytes@.len(),
            newline_position(bytes@.take(i as int)) is None,
        decreases bytes@.len() - i,
    {
        assert(bytes@.take(i + 1).drop_last() =~= bytes@.take(i as int));
        if bytes[i] == NEWLINE {
            proof {
                lemma_newline_prefix(bytes@, i + 1);
            }
            return Some(i);
        }
        i += 1;
    }
    assert(bytes@.take(i as int) =~= bytes@);
    None
}

/// Puts the line of a request together from the chunks that arrive.
#[derive(Debug)]
pub struct RequestReader {
    line: String,
}

impl View for RequestReader {
    type V = Seq<char>;

    closed spec fn view(&self) -> Seq<char> {
        self.line@
    }
}

impl RequestReader {
    /// A reader that has read nothing.
    pub fn new() -> (reader: RequestReader)
        ensures
            reader@ == Seq::<char>::empty(),
    {
        RequestReader { line: String::new() }
    }

    /// Takes the next chunk; an empty one means that the peer has closed the connection.
    ///
    /// Returns whether the line is complete. What follows the newline in the chunk is dropped.
    pub fn feed(&mut self, chunk: &[u8]) -> (complete: Result<bool, ProxyError>)
        ensures
            match feed(old(self)@, chunk@) {
                Ok((line, done)) => final(self)@ == line && complete == Ok::<bool, ProxyError>(done),
                Err(error) => final(self)@ == old(self)@ && result_view(complete) == Err::<bool, _>(
                    error,
                ),
            },
    {
        if chunk.len() == 0 {
            return Err(
                ProxyError::new(
                    ErrorKind::UnexpectedEof,
                    "Connection closed before request".to_owned(),
                ),
            );
        }
        let newline = find_newline(chunk);
        let part: &[u8] = match newline {
            Some(i) => slice_subrange(chunk, 0, i),
            None => chunk,
        };
        assert(part@ =~= line_part(chunk@));
        match from_utf8(part) {
            Ok(text) => {
                self.line.append(&text);
                Ok(newline.is_some())
            },
            Err(error) => {
                let mut message = "Invalid UTF-8: ".to_owned();
                message.append(&error);
                Err(ProxyError::new(ErrorKind::InvalidData, message))
            },
        }
    }

    /// The line that was read.
    pub fn into_line(self) -> (line: String)
        ensures
            line@ == self@,
    {
        self.line
    }
}

/// Whether a request is accepted: it has to parse and to ask for a connection.
pub open spec fn acceptance(parsed: Result<ProxyRequest, String>) -> Result<ProxyRequest, ErrorView> {
    match parsed {
        Err(error) => Err(
            ErrorView { kind: ErrorKind::InvalidData, message: "Invalid JSON: "@ + error@ },
        ),
        Ok(request) => if request.command@ == "CONNECT"@ {
            Ok(request)
        } else {
            Err(
                ErrorView {
                    kind: ErrorKind::InvalidData,
                    message: "Invalid command: "@ + request.command@,
                },
            )
        },
    }
}

/// Checks a request, given what parsing its line gave: the request, or the text of the error.
pub fn accept_request(parsed: Result<ProxyRequest, String>) -> (request: Result<
    ProxyRequest,
    ProxyError,
>)
    ensures
        result_view(request) == acceptance(parsed),
{
    match parsed {
        Ok(request) => {
            if request.command == "CONNECT".to_owned() {
                return Ok(request);
            }
            let mut message = "Invalid command: ".to_owned();
            message.append(&request.command);
            Err(ProxyError::new(ErrorKind::InvalidData, message))
        },
        Err(error) => {
            let mut message = "Invalid JSON: ".to_owned();
            message.append(&error);
            Err(ProxyError::new(ErrorKind::InvalidData, message))
        },
    }
}

/// The response to a request; a failure carries its reason.
pub open spec fn connect_answer(success: bool, message: Seq<char>) -> ResponseView {
    if success {
        ResponseView { status: "SUCCESS"@, reason: None }
    } else {
        ResponseView { status: "FAILURE"@, reason: Some(message) }
    }
}

/// Makes the response to a request.
pub fn connect_response(success: bool, message: &str) -> (response: ProxyResponse)
    ensures
        response@ == connect_answer(success, message@),
{
    if success {
        ProxyResponse { status: "SUCCESS".to_owned(), reason: None }
    } else {
        ProxyResponse { status: "FAILURE".to_owned(), reason: Some(message.to_owned()) }
    }
}

/// The line to send, given the JSON of the response or the text of the error.
pub open spec fn framed(json: Result<Seq<char>, Seq<char>>) -> Result<Seq<char>, ErrorView> {
    match json {
        Ok(json) => Ok(json.push('\n')),
        Err(error) => Err(
            ErrorView {
                kind: ErrorKind::InvalidData,
                message: "JSON serialization error: "@ + error,
            },
        ),
    }
}

/// The line to send, given what serializing the response gave: its JSON, or the text of the error.
pub fn response_line(json: Result<String, String>) -> (line: Result<String, ProxyError>)
    ensures
        match (
            line,
            framed(
                match json {
                    Ok(json) => Ok(json@),
                    Err(error) => Err(error@),
                },
            ),
        ) {
            (Ok(line), Ok(text)) => line@ == text,
            (Err(raised), Err(error)) => raised@ == error,
            _ => false,
        },
{
    match json {
        Ok(json) => {
            let mut line: String = json;
            proof {
                reveal_strlit("\n");
            }
            line.append("\n");
            Ok(line)
        },
        Err(error) => {
            let mut message = "JSON serialization error: ".to_owned();
            message.append(&error);
            Err(ProxyError::new(ErrorKind::InvalidData, message))
        },
    }
}

} // verus!
