//! What holds of the lines of the connection protocol.
use crate::conproto::{
    acceptance, connect_answer, feed, framed, line_part, newline_position, utf8_error_text,
    ProxyRequest, ProxyResponse, ResponseView, NEWLINE, REQUEST_BUFFER_SIZE,
};
use crate::error::{ErrorKind, ErrorView};
use vstd::prelude::*;
use vstd::utf8::*;

verus! {

/// What reading makes of a line and the chunks that follow: the complete line, the error, or
/// nothing yet.
pub open spec fn read_line(line: Seq<char>, chunks: Seq<Seq<u8>>) -> Option<
    Result<Seq<char>, ErrorView>,
>
    decreases chunks.len(),
{
    if chunks.len() == 0 {
        None
    } else {
        match feed(line, chunks[0]) {
            Err(error) => Some(Err(error)),
            Ok((longer, true)) => Some(Ok(longer)),
            Ok((longer, false)) => read_line(longer, chunks.drop_first()),
        }
    }
}

/// Whether a chunk is text in the middle of a line.
pub open spec fn is_inner_chunk(chunk: Seq<u8>) -> bool {
    chunk.len() > 0 && newline_position(chunk) is None && valid_utf8(chunk)
}

/// Text that is put together from two parts is decoded part by part.
proof fn lemma_decode_concat(a: Seq<u8>, b: Seq<u8>)
    requires
        valid_utf8(a),
        valid_utf8(b),
    ensures
        valid_utf8(a + b),
        decode_utf8(a + b) == decode_utf8(a) + decode_utf8(b),
    decreases a.len(),
{
    valid_utf8_concat(a, b);
    if a.len() == 0 {
        assert(a + b =~= b);
        assert(decode_utf8(a) + decode_utf8(b) =~= decode_utf8(b));
    } else {
        let rest = pop_first_scalar(a);
        assert(pop_first_scalar(a + b) =~= rest + b);
        lemma_decode_concat(rest, b);
        assert(decode_utf8(a + b) =~= decode_utf8(a) + decode_utf8(b));
    }
}

/// Chunks in the middle of a line lengthen it by the text that they encode together.
proof fn lemma_inner_chunks(line: Seq<char>, inner: Seq<Seq<u8>>, rest: Seq<Seq<u8>>)
    requires
        forall|i: int| 0 <= i < inner.len() ==> is_inner_chunk(#[trigger] inner[i]),
    ensures
        valid_utf8(inner.flatten()),
        read_line(line, inner + rest) == read_line(line + decode_utf8(inner.flatten()), rest),
    decreases inner.len(),
{
    if inner.len() == 0 {
        assert(inner + rest =~= rest);
        assert(line + decode_utf8(inner.flatten()) =~= line);
    } else {
        let chunk = inner[0];
        let others = inner.drop_first();
        assert(is_inner_chunk(inner[0]));
        assert forall|i: int| 0 <= i < others.len() implies is_inner_chunk(#[trigger] others[i]) by {
            assert(is_inner_chunk(inner[i + 1]));
        }
        let longer = line + decode_utf8(chunk);
        lemma_inner_chunks(longer, others, rest);
        lemma_decode_concat(chunk, others.flatten());
        assert((inner + rest).drop_first() =~= others + rest);
        assert((inner + rest)[0] == chunk);
        assert(longer + decode_utf8(others.flatten()) =~= line + decode_utf8(inner.flatten()));
    }
}

/// A line is the text up to the newline, however the bytes before it were cut into chunks, as long
/// as no cut goes through a character.
pub proof fn lemma_chunks_do_not_matter(inner: Seq<Seq<u8>>, last: Seq<u8>)
    requires
        forall|i: int| 0 <= i < inner.len() ==> is_inner_chunk(#[trigger] inner[i]),
        newline_position(last) is Some,
        valid_utf8(line_part(last)),
    ensures
        valid_utf8(inner.flatten() + line_part(last)),
        read_line(Seq::empty(), inner.push(last)) == Some(
            Ok::<_, ErrorView>(decode_utf8(inner.flatten() + line_part(last))),
        ),
{
    lemma_inner_chunks(Seq::empty(), inner, seq![last]);
    lemma_decode_concat(inner.flatten(), line_part(last));
    assert(inner.push(last) =~= inner + seq![last]);
    assert(last.len() > 0) by {
        assert(newline_position(Seq::empty()) is None);
    }
    let text = Seq::<char>::empty() + decode_utf8(inner.flatten());
    assert(text =~= decode_utf8(inner.flatten()));
    assert(seq![last][0] == last);
}

/// A connection that is closed before the newline gives no line, whatever came before.
pub proof fn lemma_close_before_newline_is_an_error(inner: Seq<Seq<u8>>)
    requires
        forall|i: int| 0 <= i < inner.len() ==> is_inner_chunk(#[trigger] inner[i]),
    ensures
        read_line(Seq::empty(), inner.push(Seq::empty())) == Some(
            Err::<Seq<char>, _>(
                ErrorView {
                    kind: ErrorKind::UnexpectedEof,
                    message: "Connection closed before request"@,
                },
            ),
        ),
{
    lemma_inner_chunks(Seq::empty(), inner, seq![Seq::<u8>::empty()]);
    assert(inner.push(Seq::empty()) =~= inner + seq![Seq::<u8>::empty()]);
    assert(seq![Seq::<u8>::empty()][0] == Seq::<u8>::empty());
}

/// The encoding of a character other than the newline holds no newline.
proof fn lemma_scalar_without_newline(c: char)
    requires
        c != '\n',
    ensures
        forall|i: int|
            0 <= i < encode_scalar(c as u32).len() ==> #[trigger] encode_scalar(c as u32)[i]
                != NEWLINE,
{
    let v = c as u32;
    assert(v <= 0x7f && v != 10 ==> (v & 0x7F) as u8 != 10) by (bit_vector);
    assert(0xC0 | ((v >> 6) & 0x1F) as u8 != 10) by (bit_vector);
    assert(0xE0 | ((v >> 12) & 0x0F) as u8 != 10) by (bit_vector);
    assert(0xF0 | ((v >> 18) & 0x7) as u8 != 10) by (bit_vector);
    assert(0x80 | (v & 0x3F) as u8 != 10) by (bit_vector);
    assert(0x80 | ((v >> 6) & 0x3F) as u8 != 10) by (bit_vector);
    assert(0x80 | ((v >> 12) & 0x3F) as u8 != 10) by (bit_vector);
}

/// The bytes of a line end in a newline and hold no other, where its text holds none.
pub proof fn lemma_encode_line(line: Seq<char>)
    requires
        forall|i: int| 0 <= i < line.len() ==> #[trigger] line[i] != '\n',
    ensures
        encode_utf8(line.push('\n')) == encode_utf8(line).push(NEWLINE),
        forall|i: int|
            0 <= i < encode_utf8(line).len() ==> #[trigger] encode_utf8(line)[i] != NEWLINE,
    decreases line.len(),
{
    if line.len() == 0 {
        assert((10u32 & 0x7F) as u8 == 10) by (bit_vector);
        assert(encode_scalar('\n' as u32) =~= seq![NEWLINE]);
        assert(line.push('\n').drop_first() =~= Seq::empty());
        assert(encode_utf8(Seq::<char>::empty()) =~= Seq::empty());
        assert(encode_utf8(line.push('\n')) =~= encode_utf8(line).push(NEWLINE));
    } else {
        let rest = line.drop_first();
        assert forall|i: int| 0 <= i < rest.len() implies #[trigger] rest[i] != '\n' by {
            assert(line[i + 1] != '\n');
        }
        lemma_encode_line(rest);
        assert(line.push('\n').drop_first() =~= rest.push('\n'));
        assert(line[0] != '\n');
        lemma_scalar_without_newline(line[0]);
        let first = encode_scalar(line[0] as u32);
        assert(encode_utf8(line) == first + encode_utf8(rest));
        assert(encode_utf8(line.push('\n')) =~= encode_utf8(line).push(NEWLINE));
        assert forall|i: int| 0 <= i < encode_utf8(line).len() implies #[trigger] encode_utf8(
            line,
        )[i] != NEWLINE by {
            if i < first.len() {
                assert(first[i] != NEWLINE);
            } else {
                assert(encode_utf8(rest)[i - first.len()] != NEWLINE);
            }
        }
    }
}

/// Bytes without a newline have no position of one.
proof fn lemma_no_newline(bytes: Seq<u8>)
    requires
        forall|i: int| 0 <= i < bytes.len() ==> #[trigger] bytes[i] != NEWLINE,
    ensures
        newline_position(bytes) is None,
    decreases bytes.len(),
{
    if bytes.len() > 0 {
        assert(bytes[bytes.len() - 1] != NEWLINE);
        assert forall|i: int| 0 <= i < bytes.drop_last().len() implies #[trigger] bytes.drop_last()[i]
            != NEWLINE by {
            assert(bytes[i] != NEWLINE);
        }
        lemma_no_newline(bytes.drop_last());
    }
}

/// A line that is sent with a newline behind it is read back as it was, if it holds no other.
pub proof fn lemma_sent_line_is_read_back(line: Seq<char>)
    requires
        forall|i: int| 0 <= i < line.len() ==> #[trigger] line[i] != '\n',
    ensures
        feed(Seq::empty(), encode_utf8(line.push('\n'))) == Ok::<_, ErrorView>((line, true)),
{
    let text = encode_utf8(line);
    let sent = encode_utf8(line.push('\n'));
    lemma_encode_line(line);
    lemma_no_newline(text);
    assert(sent.drop_last() =~= text);
    assert(sent.take(text.len() as int) =~= text);
    encode_utf8_valid_utf8(line);
    encode_utf8_decode_utf8(line);
    assert(Seq::<char>::empty() + line =~= line);
}

/// A newline with none before it is the first.
proof fn lemma_first_newline(bytes: Seq<u8>, i: int)
    requires
        0 <= i < bytes.len(),
        bytes[i] == NEWLINE,
        forall|j: int| 0 <= j < i ==> #[trigger] bytes[j] != NEWLINE,
    ensures
        newline_position(bytes) == Some(i),
    decreases bytes.len(),
{
    let front = bytes.drop_last();
    if i == bytes.len() - 1 {
        assert forall|j: int| 0 <= j < front.len() implies #[trigger] front[j] != NEWLINE by {
            assert(bytes[j] != NEWLINE);
        }
        lemma_no_newline(front);
    } else {
        assert forall|j: int| 0 <= j < i implies #[trigger] front[j] != NEWLINE by {
            assert(bytes[j] != NEWLINE);
        }
        lemma_first_newline(front, i);
    }
}

/// A cut through the encoding of ASCII text is one between two characters.
proof fn lemma_cut_ascii(text: Seq<char>, n: int)
    requires
        is_ascii_chars(text),
        0 <= n <= text.len(),
    ensures
        is_ascii_chars(text.take(n)),
        is_ascii_chars(text.skip(n)),
        encode_utf8(text).len() == text.len(),
        encode_utf8(text).take(n) == encode_utf8(text.take(n)),
        encode_utf8(text).skip(n) == encode_utf8(text.skip(n)),
{
    let front = text.take(n);
    let back = text.skip(n);
    assert(forall|i: int| 0 <= i < front.len() ==> #[trigger] front[i] == text[i]);
    assert(forall|i: int| 0 <= i < back.len() ==> #[trigger] back[i] == text[n + i]);
    is_ascii_chars_encode_utf8(text);
    is_ascii_chars_encode_utf8(front);
    is_ascii_chars_encode_utf8(back);
    assert forall|i: int| 0 <= i < front.len() implies encode_utf8(text)[i] == encode_utf8(
        front,
    )[i] by {
        assert(front[i] == text[i]);
    }
    assert forall|i: int| 0 <= i < back.len() implies encode_utf8(text)[n + i] == encode_utf8(
        back,
    )[i] by {
        assert(back[i] == text[n + i]);
    }
    assert(encode_utf8(text).take(n) =~= encode_utf8(front));
    assert(encode_utf8(text).skip(n) =~= encode_utf8(back));
}

/// However the bytes of an ASCII text and a newline are cut into chunks, reading them lengthens
/// the line by the text and completes it. What follows the newline is of no account.
proof fn lemma_ascii_chunks(
    line: Seq<char>,
    text: Seq<char>,
    rest: Seq<u8>,
    chunks: Seq<Seq<u8>>,
)
    requires
        is_ascii_chars(text),
        forall|i: int| 0 <= i < text.len() ==> #[trigger] text[i] != '\n',
        forall|i: int| 0 <= i < chunks.len() ==> (#[trigger] chunks[i]).len() > 0,
        chunks.flatten() == encode_utf8(text.push('\n')) + rest,
    ensures
        read_line(line, chunks) == Some(Ok::<_, ErrorView>(line + text)),
    decreases chunks.len(),
{
    let bytes = encode_utf8(text);
    let sent = bytes.push(NEWLINE) + rest;
    lemma_encode_line(text);
    lemma_cut_ascii(text, 0);
    assert(chunks.len() > 0);
    let chunk = chunks[0];
    let others = chunks.drop_first();
    let n = chunk.len() as int;
    assert(sent == chunk + others.flatten());
    assert(chunk =~= sent.take(n));
    assert(others.flatten() =~= sent.skip(n));
    if n <= text.len() {
        let front = text.take(n);
        let back = text.skip(n);
        lemma_cut_ascii(text, n);
        assert(chunk =~= bytes.take(n));
        assert forall|i: int| 0 <= i < chunk.len() implies #[trigger] chunk[i] != NEWLINE by {
            assert(bytes[i] != NEWLINE);
        }
        lemma_no_newline(chunk);
        encode_utf8_valid_utf8(front);
        encode_utf8_decode_utf8(front);
        assert forall|i: int| 0 <= i < back.len() implies #[trigger] back[i] != '\n' by {
            assert(text[n + i] != '\n');
        }
        lemma_encode_line(back);
        assert(others.flatten() =~= encode_utf8(back.push('\n')) + rest);
        assert forall|i: int| 0 <= i < others.len() implies (#[trigger] others[i]).len() > 0 by {
            assert(chunks[i + 1].len() > 0);
        }
        lemma_ascii_chunks(line + front, back, rest, others);
        assert(line + front + back =~= line + text);
    } else {
        let m = text.len() as int;
        assert forall|i: int| 0 <= i < m implies #[trigger] chunk[i] != NEWLINE by {
            assert(bytes[i] != NEWLINE);
        }
        assert(chunk[m] == NEWLINE);
        lemma_first_newline(chunk, m);
        assert(line_part(chunk) =~= bytes);
        encode_utf8_valid_utf8(text);
        encode_utf8_decode_utf8(text);
    }
}

/// An ASCII line that is sent with a newline behind it is read back as it was, in whatever
/// non-empty chunks it arrives and whatever follows it.
pub proof fn lemma_followed_ascii_line_is_read_back(
    line: Seq<char>,
    rest: Seq<u8>,
    chunks: Seq<Seq<u8>>,
)
    requires
        is_ascii_chars(line),
        forall|i: int| 0 <= i < line.len() ==> #[trigger] line[i] != '\n',
        forall|i: int| 0 <= i < chunks.len() ==> (#[trigger] chunks[i]).len() > 0,
        chunks.flatten() == encode_utf8(line.push('\n')) + rest,
    ensures
        read_line(Seq::empty(), chunks) == Some(Ok::<_, ErrorView>(line)),
{
    lemma_ascii_chunks(Seq::empty(), line, rest, chunks);
    assert(Seq::<char>::empty() + line =~= line);
}

/// An ASCII line that is sent with a newline behind it is read back as it was, in whatever
/// non-empty chunks it arrives.
pub proof fn lemma_ascii_line_is_read_back(line: Seq<char>, chunks: Seq<Seq<u8>>)
    requires
        is_ascii_chars(line),
        forall|i: int| 0 <= i < line.len() ==> #[trigger] line[i] != '\n',
        forall|i: int| 0 <= i < chunks.len() ==> (#[trigger] chunks[i]).len() > 0,
        chunks.flatten() == encode_utf8(line.push('\n')),
    ensures
        read_line(Seq::empty(), chunks) == Some(Ok::<_, ErrorView>(line)),
{
    assert(chunks.flatten() =~= encode_utf8(line.push('\n')) + Seq::<u8>::empty());
    lemma_followed_ascii_line_is_read_back(line, Seq::empty(), chunks);
}

/// What reading a request from chunks gives, where `parse` is what parsing makes of its line: the
/// request, the error, or nothing yet.
pub open spec fn read_request(
    parse: spec_fn(Seq<char>) -> Result<ProxyRequest, String>,
    chunks: Seq<Seq<u8>>,
) -> Option<Result<ProxyRequest, ErrorView>> {
    match read_line(Seq::empty(), chunks) {
        None => None,
        Some(Err(error)) => Some(Err(error)),
        Some(Ok(line)) => Some(acceptance(parse(line))),
    }
}

/// A request to connect that is sent as a line of ASCII JSON is accepted as it was, in whatever
/// non-empty chunks it arrives, whatever its length, as long as parsing gives it back from its
/// JSON.
pub proof fn lemma_sent_request_is_accepted(
    parse: spec_fn(Seq<char>) -> Result<ProxyRequest, String>,
    request: ProxyRequest,
    json: Seq<char>,
    chunks: Seq<Seq<u8>>,
)
    requires
        request.command@ == "CONNECT"@,
        parse(json) == Ok::<_, String>(request),
        is_ascii_chars(json),
        forall|i: int| 0 <= i < json.len() ==> #[trigger] json[i] != '\n',
        forall|i: int| 0 <= i < chunks.len() ==> (#[trigger] chunks[i]).len() > 0,
        chunks.flatten() == encode_utf8(json.push('\n')),
    ensures
        read_request(parse, chunks) == Some(Ok::<_, ErrorView>(request)),
{
    lemma_ascii_line_is_read_back(json, chunks);
}

/// The bytes of the response to a request, where `to_json` gives the JSON of a response.
pub open spec fn sent_response(
    to_json: spec_fn(ResponseView) -> Seq<char>,
    success: bool,
    message: Seq<char>,
) -> Seq<u8> {
    encode_utf8(to_json(connect_answer(success, message)).push('\n'))
}

/// The bytes of a response are one line: they end in a newline and hold no other. A client that
/// reads the line and parses it has the response. This holds of every message, as long as the
/// JSON of the response holds no newline and parsing gives the response back from it.
pub proof fn lemma_sent_response_is_read_back(
    to_json: spec_fn(ResponseView) -> Seq<char>,
    from_json: spec_fn(Seq<char>) -> Option<ResponseView>,
    success: bool,
    message: Seq<char>,
)
    requires
        ({
            let json = to_json(connect_answer(success, message));
            &&& from_json(json) == Some(connect_answer(success, message))
            &&& forall|i: int| 0 <= i < json.len() ==> #[trigger] json[i] != '\n'
        }),
    ensures
        ({
            let sent = sent_response(to_json, success, message);
            &&& sent.len() > 0
            &&& sent.last() == NEWLINE
            &&& forall|i: int| 0 <= i < sent.len() - 1 ==> #[trigger] sent[i] != NEWLINE
            &&& match read_line(Seq::empty(), seq![sent]) {
                Some(Ok(line)) => from_json(line) == Some(connect_answer(success, message)),
                _ => false,
            }
        }),
{
    let json = to_json(connect_answer(success, message));
    let sent = sent_response(to_json, success, message);
    lemma_encode_line(json);
    lemma_sent_line_is_read_back(json);
    assert forall|i: int| 0 <= i < sent.len() - 1 implies #[trigger] sent[i] != NEWLINE by {
        assert(encode_utf8(json)[i] != NEWLINE);
    }
    assert(seq![sent][0] == sent);
}

/// A response tells success from failure, and a failure its reason; of a success the message is no
/// part, so that the same bytes are sent for every message.
pub proof fn lemma_response_tells_the_outcome(
    to_json: spec_fn(ResponseView) -> Seq<char>,
    success: bool,
    message: Seq<char>,
    other_success: bool,
    other_message: Seq<char>,
)
    ensures
        connect_answer(success, message) == connect_answer(other_success, other_message) <==> (
        success == other_success && (success || message == other_message)),
        success && other_success ==> sent_response(to_json, success, message) == sent_response(
            to_json,
            other_success,
            other_message,
        ),
{
}

/// The first newline of a chunk is the first byte with the number 10.
pub proof fn lemma_newline_meaning(bytes: Seq<u8>)
    ensures
        match newline_position(bytes) {
            Some(i) => 0 <= i < bytes.len() && bytes[i] == 10 && forall|j: int|
                0 <= j < i ==> #[trigger] bytes[j] != 10,
            None => forall|j: int| 0 <= j < bytes.len() ==> #[trigger] bytes[j] != 10,
        },
    decreases bytes.len(),
{
    if bytes.len() > 0 {
        let front = bytes.drop_last();
        lemma_newline_meaning(front);
        assert(forall|j: int| 0 <= j < front.len() ==> #[trigger] front[j] == bytes[j]);
        match newline_position(front) {
            Some(i) => {
                assert(bytes[i] == front[i]);
                assert forall|j: int| 0 <= j < i implies #[trigger] bytes[j] != 10 by {
                    assert(front[j] != 10);
                }
            },
            None => {
                assert forall|j: int| 0 <= j < bytes.len() - 1 implies #[trigger] bytes[j]
                    != 10 by {
                    assert(front[j] != 10);
                }
            },
        }
    }
}

/// A chunk with a newline completes the line with the text before the newline, whatever stands
/// behind it; where that is no UTF-8, it is an error that says so.
pub proof fn lemma_chunk_with_newline(line: Seq<char>, before: Seq<u8>, behind: Seq<u8>)
    requires
        forall|j: int| 0 <= j < before.len() ==> #[trigger] before[j] != 10,
    ensures
        valid_utf8(before) ==> feed(line, before.push(10) + behind) == Ok::<_, ErrorView>(
            (line + decode_utf8(before), true),
        ),
        !valid_utf8(before) ==> feed(line, before.push(10) + behind) == Err::<
            (Seq<char>, bool),
            _,
        >(
            ErrorView {
                kind: ErrorKind::InvalidData,
                message: "Invalid UTF-8: "@ + utf8_error_text(before),
            },
        ),
{
    let chunk = before.push(10) + behind;
    let n = before.len() as int;
    assert(chunk[n] == 10);
    assert(forall|j: int| 0 <= j < n ==> #[trigger] chunk[j] == before[j]);
    lemma_first_newline(chunk, n);
    assert(chunk.take(n) =~= before);
}

/// A chunk without a newline lengthens the line by its text and does not complete it; where it is
/// no UTF-8, it is an error that says so. An empty chunk is an error: the peer has closed the
/// connection.
pub proof fn lemma_chunk_without_newline(line: Seq<char>, chunk: Seq<u8>)
    requires
        forall|j: int| 0 <= j < chunk.len() ==> #[trigger] chunk[j] != 10,
    ensures
        chunk.len() > 0 && valid_utf8(chunk) ==> feed(line, chunk) == Ok::<_, ErrorView>(
            (line + decode_utf8(chunk), false),
        ),
        chunk.len() > 0 && !valid_utf8(chunk) ==> feed(line, chunk) == Err::<(Seq<char>, bool), _>(
            ErrorView {
                kind: ErrorKind::InvalidData,
                message: "Invalid UTF-8: "@ + utf8_error_text(chunk),
            },
        ),
        chunk.len() == 0 ==> feed(line, chunk) == Err::<(Seq<char>, bool), _>(
            ErrorView {
                kind: ErrorKind::UnexpectedEof,
                message: "Connection closed before request"@,
            },
        ),
{
    lemma_no_newline(chunk);
}

/// A request is accepted exactly where it parses and its command is CONNECT, and then as it is;
/// every other is refused with an error that says what is wrong with it.
pub proof fn lemma_only_connect_is_accepted(request: ProxyRequest, error: String)
    ensures
        request.command@ == "CONNECT"@ ==> acceptance(Ok(request)) == Ok::<_, ErrorView>(request),
        request.command@ != "CONNECT"@ ==> acceptance(Ok(request)) == Err::<ProxyRequest, _>(
            ErrorView {
                kind: ErrorKind::InvalidData,
                message: "Invalid command: "@ + request.command@,
            },
        ),
        acceptance(Err(error)) == Err::<ProxyRequest, _>(
            ErrorView { kind: ErrorKind::InvalidData, message: "Invalid JSON: "@ + error@ },
        ),
{
}

/// A success is answered with its status alone, a failure with its status and the message. The
/// line is the JSON and a newline; where there is no JSON, it is an error that says why.
pub proof fn lemma_response_contents(
    response: ProxyResponse,
    message: Seq<char>,
    json: Seq<char>,
    error: Seq<char>,
)
    ensures
        connect_answer(true, message).status == "SUCCESS"@,
        connect_answer(true, message).reason == None::<Seq<char>>,
        connect_answer(false, message).status == "FAILURE"@,
        connect_answer(false, message).reason == Some(message),
        response@.status == response.status@,
        response.reason matches Some(reason) ==> response@.reason == Some(reason@),
        response.reason is None ==> response@.reason == None::<Seq<char>>,
        framed(Ok(json)) == Ok::<_, ErrorView>(json + seq!['\n']),
        framed(Err(error)) == Err::<Seq<char>, _>(
            ErrorView {
                kind: ErrorKind::InvalidData,
                message: "JSON serialization error: "@ + error,
            },
        ),
{
    assert(json.push('\n') =~= json + seq!['\n']);
}

/// A line ends in the byte with the number 10, and requests are read in pieces of 1024 bytes.
pub proof fn lemma_line_constants()
    ensures
        NEWLINE == 10,
        REQUEST_BUFFER_SIZE == 1024,
{
}

} // verus!
