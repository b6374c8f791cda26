//! Requests and the parser that reads them from the bytes of a connection.

use crate::ascii::{
    append, find_byte, lemma_find_byte, lemma_find_byte_in_prefix, lower, parse_unsigned,
    position_of, to_lower, unsigned_number, COLON, CR, LF, SPACE,
};
use crate::assoc::{has_key, lookup, unique_keys, with_last};
use crate::error::{ParseError, ParseFailure};
use crate::headers::{Fields, Headers};
use crate::method::Method;
use crate::response::{is_reserved, length_name, wire, HTTPResponse};
use crate::status::Status;
use vstd::prelude::*;
use vstd::slice::{slice_subrange, slice_to_vec};
use vstd::string::StringSliceAdditionalSpecFns;
use vstd::utf8::is_ascii_chars_encode_utf8;

verus! {

/// What a request holds, as a mathematical value.
pub ghost struct RequestData {
    pub method: Method,
    pub target: Seq<u8>,
    pub version: Seq<u8>,
    pub headers: Fields,
    pub body: Seq<u8>,
}

/// One line of the input.
pub ghost struct Line {
    /// The line without its terminator.
    pub text: Seq<u8>,
    /// Where the next line starts.
    pub next: int,
    /// Whether the line ends in a terminator, not with the input.
    pub terminated: bool,
}

/// The outcome of reading the header block.
pub ghost enum Head {
    /// More bytes are needed.
    Pending,
    Failed(ParseFailure),
    /// The headers, and the position at which the body starts.
    Complete(Fields, int),
}

/// The name that announces a transfer encoding, in lower case.
pub open spec fn encoding_name() -> Seq<u8> {
    "transfer-encoding".spec_bytes()
}

/// A line without the carriage return that may precede its line feed.
pub open spec fn without_cr(text: Seq<u8>) -> Seq<u8> {
    if text.len() > 0 && text.last() == CR {
        text.drop_last()
    } else {
        text
    }
}

/// The line that starts at `from`. It runs to the next line feed or, where
/// there is none, to the end of the input.
pub open spec fn line_at(input: Seq<u8>, from: int) -> Line {
    let end = find_byte(input, LF, from);
    Line {
        text: without_cr(input.subrange(from, end)),
        next: if end < input.len() {
            end + 1
        } else {
            end
        },
        terminated: end < input.len(),
    }
}

/// The first position at or after `from` at which `": "` stands, or the
/// length of `line` where it stands nowhere.
pub open spec fn find_separator(line: Seq<u8>, from: int) -> int
    decreases line.len() - from,
{
    if from + 1 >= line.len() {
        line.len() as int
    } else if line[from] == COLON && line[from + 1] == SPACE {
        from
    } else {
        find_separator(line, from + 1)
    }
}

/// The field of a header line: the name before the first `": "`, in lower
/// case, and the value after it, as sent.
pub open spec fn header_field(line: Seq<u8>) -> Option<(Seq<u8>, Seq<u8>)> {
    let at = find_separator(line, 0);
    if at < line.len() {
        Some((lower(line.subrange(0, at)), line.subrange(at + 2, line.len() as int)))
    } else {
        None
    }
}

/// The three tokens of a request line: what stands before the first space,
/// between the first two spaces, and from there to the third space or the
/// end of the line.
pub open spec fn request_line(line: Seq<u8>) -> Result<(Method, Seq<u8>, Seq<u8>), ParseFailure> {
    let first = find_byte(line, SPACE, 0);
    let second = find_byte(line, SPACE, first + 1);
    let third = find_byte(line, SPACE, second + 1);
    if second >= line.len() {
        Err(ParseFailure::MalformedRequestLine)
    } else {
        match Method::named_by(line.subrange(0, first)) {
            None => Err(ParseFailure::UnknownMethod(line.subrange(0, first))),
            Some(method) => Ok(
                (method, line.subrange(first + 1, second), line.subrange(second + 1, third)),
            ),
        }
    }
}

/// The header block that starts at `from`, read line by line into `sofar`.
/// An empty line ends it, and so does the end of a closed input. Of two
/// fields with one name the later one stays.
pub open spec fn head_from(input: Seq<u8>, from: int, sofar: Fields, closed: bool) -> Head
    decreases input.len() - from,
{
    let line = line_at(input, from);
    if from >= input.len() {
        if closed {
            Head::Complete(sofar, from)
        } else {
            Head::Pending
        }
    } else if !line.terminated && !closed {
        Head::Pending
    } else if line.text.len() == 0 {
        Head::Complete(sofar, line.next)
    } else {
        match header_field(line.text) {
            None => Head::Failed(ParseFailure::MissingHeaderSeparator),
            Some((name, value)) => {
                proof {
                    lemma_find_byte(input, LF, from);
                }
                head_from(input, line.next, with_last(sofar, name, value), closed)
            },
        }
    }
}

/// The body length that the headers announce: the number under
/// `content-length`, or zero where that header is absent. A value that is
/// no number or exceeds `usize` is refused, and so is a transfer encoding
/// without a content length.
pub open spec fn body_length(headers: Fields) -> Result<nat, ParseFailure> {
    match lookup(headers, length_name()) {
        Some(value) => match unsigned_number(value) {
            Some(n) => if n <= usize::MAX {
                Ok(n)
            } else {
                Err(ParseFailure::InvalidContentLength)
            },
            None => Err(ParseFailure::InvalidContentLength),
        },
        None => if has_key(headers, encoding_name()) {
            Err(ParseFailure::InvalidContentLength)
        } else {
            Ok(0nat)
        },
    }
}

/// What the bytes received so far amount to. `closed` says whether the
/// stream has ended; while it has not, `None` says that more bytes are needed.
pub open spec fn parse_stream(input: Seq<u8>, closed: bool) -> Option<
    Result<RequestData, ParseFailure>,
> {
    let first = line_at(input, 0);
    if !first.terminated && !closed {
        None
    } else {
        match request_line(first.text) {
            Err(failure) => Some(Err(failure)),
            Ok((method, target, version)) => match head_from(
                input,
                first.next,
                Fields::empty(),
                closed,
            ) {
                Head::Pending => None,
                Head::Failed(failure) => Some(Err(failure)),
                Head::Complete(headers, body_at) => match body_length(headers) {
                    Err(failure) => Some(Err(failure)),
                    Ok(length) => if body_at + length <= input.len() {
                        Some(
                            Ok(
                                RequestData {
                                    method,
                                    target,
                                    version,
                                    headers,
                                    body: input.subrange(body_at, body_at + length),
                                },
                            ),
                        )
                    } else if closed {
                        Some(Err(ParseFailure::TruncatedBody))
                    } else {
                        None
                    },
                },
            },
        }
    }
}

/// The request that a complete stream holds.
pub open spec fn parse(input: Seq<u8>) -> Result<RequestData, ParseFailure> {
    parse_stream(input, true)->0
}

/// A closed stream always has an outcome.
pub proof fn lemma_closed_stream_decides(input: Seq<u8>)
    ensures
        parse_stream(input, true) == Some(parse(input)),
{
    let first = line_at(input, 0);
    lemma_find_byte(input, LF, 0);
    lemma_closed_head_decides(input, first.next, Fields::empty());
}

/// The header block of a closed stream is never pending, and the body
/// starts within the input.
pub proof fn lemma_closed_head_decides(input: Seq<u8>, from: int, sofar: Fields)
    requires
        0 <= from <= input.len(),
    ensures
        !(head_from(input, from, sofar, true) is Pending),
        head_from(input, from, sofar, true) matches Head::Complete(_, body_at) ==> from <= body_at
            <= input.len(),
    decreases input.len() - from,
{
    let line = line_at(input, from);
    lemma_find_byte(input, LF, from);
    if from < input.len() && line.text.len() != 0 {
        match header_field(line.text) {
            None => {},
            Some((name, value)) => {
                lemma_closed_head_decides(input, line.next, with_last(sofar, name, value));
            },
        }
    }
}

/// A line that ends in a terminator is the same line in every extension
/// of the input.
proof fn lemma_line_in_prefix(input: Seq<u8>, more: Seq<u8>, from: int)
    requires
        0 <= from <= input.len(),
        line_at(input, from).terminated,
    ensures
        line_at(input + more, from) == line_at(input, from),
{
    lemma_find_byte(input, LF, from);
    lemma_find_byte_in_prefix(input, more, LF, from);
    let end = find_byte(input, LF, from);
    assert((input + more).subrange(from, end) =~= input.subrange(from, end));
}

/// A header block that is decided while the stream is open is decided the
/// same way in every extension of the input, and its body starts within
/// the input.
proof fn lemma_head_in_prefix(
    input: Seq<u8>,
    more: Seq<u8>,
    from: int,
    sofar: Fields,
    closed: bool,
)
    requires
        0 <= from <= input.len(),
        !(head_from(input, from, sofar, false) is Pending),
    ensures
        head_from(input + more, from, sofar, closed) == head_from(input, from, sofar, false),
        head_from(input, from, sofar, false) matches Head::Complete(_, body_at) ==> from <= body_at
            <= input.len(),
    decreases input.len() - from,
{
    let line = line_at(input, from);
    lemma_find_byte(input, LF, from);
    lemma_line_in_prefix(input, more, from);
    if line.text.len() != 0 {
        match header_field(line.text) {
            None => {},
            Some((name, value)) => {
                lemma_head_in_prefix(input, more, line.next, with_last(sofar, name, value), closed);
            },
        }
    }
}

/// Once the bytes received decide the outcome, no further byte and no end
/// of the stream changes it.
pub proof fn lemma_decided_stays_decided(received: Seq<u8>, more: Seq<u8>, closed: bool)
    requires
        parse_stream(received, false) is Some,
    ensures
        parse_stream(received + more, closed) == parse_stream(received, false),
        parse(received) == parse_stream(received, false)->0,
{
    let empty = Fields::empty();
    let first = line_at(received, 0);
    lemma_find_byte(received, LF, 0);
    lemma_line_in_prefix(received, more, 0);
    lemma_line_in_prefix(received, Seq::<u8>::empty(), 0);
    assert(received + Seq::<u8>::empty() =~= received);
    match request_line(first.text) {
        Err(_) => {},
        Ok(_) => {
            lemma_head_in_prefix(received, more, first.next, empty, closed);
            lemma_head_in_prefix(received, Seq::<u8>::empty(), first.next, empty, true);
            match head_from(received, first.next, empty, false) {
                Head::Complete(headers, body_at) => {
                    match body_length(headers) {
                        Ok(length) => {
                            assert((received + more).subrange(body_at, body_at + length)
                                =~= received.subrange(body_at, body_at + length));
                        },
                        Err(_) => {},
                    }
                },
                _ => {},
            }
        },
    }
}

/// A request read from a connection, with the bytes that were written back
/// to that connection so far.
#[derive(Debug)]
pub struct HTTPRequest {
    method: Method,
    target: Vec<u8>,
    http_version: Vec<u8>,
    headers: Headers,
    body: Vec<u8>,
    outgoing: Vec<u8>,
}

impl View for HTTPRequest {
    type V = RequestData;

    closed spec fn view(&self) -> RequestData {
        RequestData {
            method: self.method,
            target: self.target@,
            version: self.http_version@,
            headers: self.headers@,
            body: self.body@,
        }
    }
}

/// The mathematical value of a parser result.
pub open spec fn outcome(r: Result<HTTPRequest, ParseError>) -> Result<RequestData, ParseFailure> {
    match r {
        Ok(request) => Ok(request@),
        Err(error) => Err(error@),
    }
}

struct LineSpan {
    end: usize,
    next: usize,
    terminated: bool,
}

enum HeadOutcome {
    Pending,
    Failed(ParseError),
    Complete(Headers, usize),
}

fn read_line(input: &[u8], from: usize) -> (r: LineSpan)
    requires
        from <= input.len(),
    ensures
        from <= r.end <= r.next <= input.len(),
        from < input.len() ==> from < r.next,
        line_at(input@, from as int) == (Line {
            text: input@.subrange(from as int, r.end as int),
            next: r.next as int,
            terminated: r.terminated,
        }),
{
    let stop: usize = position_of(input, LF, from);
    let terminated: bool = stop < input.len();
    let next: usize = if terminated {
        stop + 1
    } else {
        stop
    };
    let end: usize = if stop > from && input[stop - 1] == CR {
        stop - 1
    } else {
        stop
    };
    proof {
        let raw = input@.subrange(from as int, stop as int);
        if stop > from {
            assert(raw.last() == input@[stop - 1]);
            assert(raw.drop_last() =~= input@.subrange(from as int, stop - 1));
        }
    }
    LineSpan { end, next, terminated }
}

fn separator_position(line: &[u8]) -> (r: usize)
    ensures
        r == find_separator(line@, 0),
        r < line.len() ==> r + 2 <= line.len(),
        r <= line.len(),
{
    let mut i: usize = 0;
    while line.len() - i >= 2 && !(line[i] == COLON && line[i + 1] == SPACE)
        invariant
            i <= line.len(),
            find_separator(line@, 0) == find_separator(line@, i as int),
        decreases line.len() - i,
    {
        i += 1;
    }
    if line.len() - i >= 2 {
        i
    } else {
        line.len()
    }
}

fn split_header(line: &[u8]) -> (r: Option<(Vec<u8>, Vec<u8>)>)
    ensures
        match header_field(line@) {
            Some((name, value)) => r matches Some((n, v)) && n@ == name && v@ == value,
            None => r is None,
        },
{
    let at: usize = separator_position(line);
    if at < line.len() {
        let name: Vec<u8> = to_lower(slice_subrange(line, 0, at));
        let value: Vec<u8> = slice_to_vec(slice_subrange(line, at + 2, line.len()));
        Some((name, value))
    } else {
        None
    }
}

fn split_request_line(line: &[u8]) -> (r: Result<(Method, Vec<u8>, Vec<u8>), ParseError>)
    ensures
        match request_line(line@) {
            Ok((method, target, version)) => r matches Ok((m, t, v)) && m == method && t@ == target
                && v@ == version,
            Err(failure) => r is Err && r->Err_0@ == failure,
        },
{
    let first: usize = position_of(line, SPACE, 0);
    if first >= line.len() {
        return Err(ParseError::MalformedRequestLine);
    }
    let second: usize = position_of(line, SPACE, first + 1);
    if second >= line.len() {
        return Err(ParseError::MalformedRequestLine);
    }
    let third: usize = position_of(line, SPACE, second + 1);
    match Method::from_bytes(slice_subrange(line, 0, first)) {
        Err(error) => Err(error),
        Ok(method) => {
            let target: Vec<u8> = slice_to_vec(slice_subrange(line, first + 1, second));
            let version: Vec<u8> = slice_to_vec(slice_subrange(line, second + 1, third));
            Ok((method, target, version))
        },
    }
}

fn read_head(input: &[u8], from: usize, closed: bool) -> (r: HeadOutcome)
    requires
        from <= input.len(),
    ensures
        match head_from(input@, from as int, Fields::empty(), closed) {
            Head::Pending => r is Pending,
            Head::Failed(failure) => r is Failed && r->Failed_0@ == failure,
            Head::Complete(headers, body_at) => r is Complete && r->Complete_0@ == headers
                && r->Complete_1 == body_at && body_at <= input.len(),
        },
{
    let mut headers: Headers = Headers::new();
    let mut at: usize = from;
    loop
        invariant
            at <= input.len(),
            head_from(input@, from as int, Fields::empty(), closed)
                == head_from(input@, at as int, headers@, closed),
        decreases input.len() - at,
    {
        if at >= input.len() {
            if closed {
                return HeadOutcome::Complete(headers, at);
            } else {
                return HeadOutcome::Pending;
            }
        }
        let line: LineSpan = read_line(input, at);
        if !line.terminated && !closed {
            return HeadOutcome::Pending;
        }
        if line.end == at {
            return HeadOutcome::Complete(headers, line.next);
        }
        match split_header(slice_subrange(input, at, line.end)) {
            None => {
                return HeadOutcome::Failed(ParseError::MissingHeaderSeparator);
            },
            Some((name, value)) => {
                headers.set(name, value);
                at = line.next;
            },
        }
    }
}

fn announced_length(headers: &Headers) -> (r: Result<usize, ParseError>)
    ensures
        match body_length(headers@) {
            Ok(length) => r is Ok && r->Ok_0 == length,
            Err(failure) => r is Err && r->Err_0@ == failure,
        },
{
    match headers.get("content-length".as_bytes()) {
        Some(value) => match parse_unsigned(value.as_slice()) {
            Some(length) => Ok(length),
            None => Err(ParseError::InvalidContentLength),
        },
        None => if headers.contains("transfer-encoding".as_bytes()) {
            Err(ParseError::InvalidContentLength)
        } else {
            Ok(0)
        },
    }
}

impl HTTPRequest {
    /// The bytes written back to the connection so far.
    pub closed spec fn sent(&self) -> Seq<u8> {
        self.outgoing@
    }

    /// Reads the request that a complete stream holds: the request line,
    /// the header block, and as many body bytes as `content-length` announces.
    pub fn new(input: &[u8]) -> (r: Result<HTTPRequest, ParseError>)
        ensures
            outcome(r) == parse(input@),
            r is Ok ==> r->Ok_0.sent() == Seq::<u8>::empty(),
    {
        proof {
            lemma_closed_stream_decides(input@);
        }
        match HTTPRequest::poll(input, true) {
            Some(r) => r,
            None => Err(ParseError::TruncatedBody),
        }
    }

    /// Reads a request from the bytes received so far. `closed` says
    /// whether the stream has ended. `None` says that the outcome depends on
    /// bytes that have not arrived yet.
    pub fn poll(input: &[u8], closed: bool) -> (r: Option<Result<HTTPRequest, ParseError>>)
        ensures
            match parse_stream(input@, closed) {
                Some(expected) => r is Some && outcome(r->0) == expected,
                None => r is None,
            },
            r matches Some(Ok(request)) ==> request.sent() == Seq::<u8>::empty(),
    {
        let first: LineSpan = read_line(input, 0);
        if !first.terminated && !closed {
            return None;
        }
        let (method, target, http_version) = match split_request_line(
            slice_subrange(input, 0, first.end),
        ) {
            Err(error) => {
                return Some(Err(error));
            },
            Ok(tokens) => tokens,
        };
        let (headers, body_at) = match read_head(input, first.next, closed) {
            HeadOutcome::Pending => {
                return None;
            },
            HeadOutcome::Failed(error) => {
                return Some(Err(error));
            },
            HeadOutcome::Complete(headers, body_at) => (headers, body_at),
        };
        let length: usize = match announced_length(&headers) {
            Err(error) => {
                return Some(Err(error));
            },
            Ok(length) => length,
        };
        if length > input.len() - body_at {
            if closed {
                return Some(Err(ParseError::TruncatedBody));
            } else {
                return None;
            }
        }
        let body: Vec<u8> = slice_to_vec(slice_subrange(input, body_at, body_at + length));
        Some(Ok(HTTPRequest { method, target, http_version, headers, body, outgoing: Vec::new() }))
    }

    /// The method of the request.
    pub fn method(&self) -> (r: Method)
        ensures
            r == self@.method,
    {
        self.method
    }

    /// The request target, as sent.
    pub fn target(&self) -> (r: &Vec<u8>)
        ensures
            r@ == self@.target,
    {
        &self.target
    }

    /// The protocol version, as sent.
    pub fn http_version(&self) -> (r: &Vec<u8>)
        ensures
            r@ == self@.version,
    {
        &self.http_version
    }

    /// The headers, under their lower-case names. No name occurs twice.
    pub fn get_headers(&self) -> (r: &Headers)
        ensures
            r@ == self@.headers,
            unique_keys(r@),
    {
        proof {
            use_type_invariant(&self.headers);
        }
        &self.headers
    }

    /// The body of the request.
    pub fn body(&self) -> (r: &Vec<u8>)
        ensures
            r@ == self@.body,
    {
        &self.body
    }

    /// The bytes written back so far, for the connection to transmit.
    pub fn outgoing(&self) -> (r: &Vec<u8>)
        ensures
            r@ == self.sent(),
    {
        &self.outgoing
    }

    /// Writes a `200 OK` response with the body `text`.
    pub fn send(&mut self, text: &str)
        ensures
            final(self)@ == old(self)@,
            final(self).sent() == old(self).sent() + wire(
                Status::OK,
                Fields::empty(),
                text.spec_bytes(),
            ),
    {
        let response: HTTPResponse = HTTPResponse::new(Status::OK, text.to_owned());
        let bytes: Vec<u8> = response.serialize();
        append(&mut self.outgoing, bytes.as_slice());
    }

    /// Writes a `200 OK` response with the body `text`, marked as JSON.
    pub fn send_json(&mut self, text: &str)
        ensures
            final(self)@ == old(self)@,
            final(self).sent() == old(self).sent() + wire(
                Status::OK,
                seq![("Content-Type".spec_bytes(), "application/json".spec_bytes())],
                text.spec_bytes(),
            ),
    {
        let mut response: HTTPResponse = HTTPResponse::new(Status::OK, text.to_owned());
        response.add_header("Content-Type".to_owned(), "application/json".to_owned());
        proof {
            lemma_content_type_is_free();
        }
        let bytes: Vec<u8> = response.serialize();
        append(&mut self.outgoing, bytes.as_slice());
    }
}

/// `Content-Type` is no reserved name.
proof fn lemma_content_type_is_free()
    ensures
        !is_reserved("Content-Type".spec_bytes()),
{
    reveal_strlit("Content-Type");
    reveal_strlit("content-length");
    is_ascii_chars_encode_utf8("Content-Type"@);
    is_ascii_chars_encode_utf8("content-length"@);
    assert(lower("Content-Type".spec_bytes()).len() == 12);
    assert(length_name().len() == 14);
}

} // verus!
