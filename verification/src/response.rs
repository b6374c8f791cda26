//! Responses and their rendering as wire bytes.

use crate::ascii::{append, bytes_of, decimal, lower, push_decimal, same_bytes_ignoring_case};
use crate::assoc::{
    has_key, lemma_with_first, lemma_with_last_at, lookup, unique_keys, with_first,
};
use crate::headers::{Fields, Headers};
use crate::status::Status;
use vstd::prelude::*;
use vstd::string::StringSliceAdditionalSpecFns;
use vstd::utf8::{encode_utf8, is_ascii_chars_encode_utf8};

verus! {

/// The protocol label of every response.
pub open spec fn protocol() -> Seq<u8> {
    "HTTP/1.1".spec_bytes()
}

/// The line terminator of the wire format.
pub open spec fn crlf() -> Seq<u8> {
    "\r\n".spec_bytes()
}

/// What stands between a header's name and its value.
pub open spec fn separator() -> Seq<u8> {
    ": ".spec_bytes()
}

/// The label of the length header as it is emitted.
pub open spec fn length_label() -> Seq<u8> {
    "Content-Length".spec_bytes()
}

/// The name under which a request or response announces its body length,
/// in lower case.
pub open spec fn length_name() -> Seq<u8> {
    "content-length".spec_bytes()
}

/// Whether a header name is the length header's, in any letter case.
/// Such a name is never taken from the caller.
pub open spec fn is_reserved(name: Seq<u8>) -> bool {
    lower(name) == length_name()
}

/// No field is called like the length header.
pub open spec fn no_reserved(fields: Fields) -> bool {
    forall|i: int| 0 <= i < fields.len() ==> !is_reserved((#[trigger] fields[i]).0)
}

/// The header lines of a response: each field as its name, `": "`, its
/// value and a line terminator, in order.
pub open spec fn header_lines(fields: Fields) -> Seq<u8>
    decreases fields.len(),
{
    if fields.len() == 0 {
        Seq::<u8>::empty()
    } else {
        header_lines(fields.drop_last()) + fields.last().0 + separator() + fields.last().1 + crlf()
    }
}

/// The status line and the length header: what every response starts with.
pub open spec fn preamble(status: Status, length: nat) -> Seq<u8> {
    protocol() + seq![32u8] + status.token() + crlf() + length_label() + separator() + decimal(
        length,
    ) + crlf()
}

/// The wire bytes of a response: status line, length header, the other
/// headers, a blank line and the body.
pub open spec fn wire(status: Status, fields: Fields, body: Seq<u8>) -> Seq<u8> {
    preamble(status, body.len()) + header_lines(fields) + crlf() + body
}

/// What a response holds, as a mathematical value.
pub ghost struct ResponseData {
    pub status: Status,
    pub headers: Fields,
    pub body: Seq<u8>,
}

impl ResponseData {
    /// The response after an attempt to add a header: a reserved name is
    /// refused, a name already present keeps its value.
    pub open spec fn with_header(self, name: Seq<u8>, value: Seq<u8>) -> ResponseData {
        if is_reserved(name) {
            self
        } else {
            ResponseData { headers: with_first(self.headers, name, value), ..self }
        }
    }

    /// The response after a series of attempts to add headers, in order.
    pub open spec fn with_headers(self, attempts: Fields) -> ResponseData
        decreases attempts.len(),
    {
        if attempts.len() == 0 {
            self
        } else {
            self.with_headers(attempts.drop_last()).with_header(
                attempts.last().0,
                attempts.last().1,
            )
        }
    }

    /// The wire bytes of the response.
    pub open spec fn bytes(self) -> Seq<u8> {
        wire(self.status, self.headers, self.body)
    }
}

/// A response: a status, a body and further headers in the order in which
/// they were added.
#[derive(Debug)]
pub struct HTTPResponse {
    status: Status,
    data: Vec<u8>,
    headers: Headers,
}

impl View for HTTPResponse {
    type V = ResponseData;

    closed spec fn view(&self) -> ResponseData {
        ResponseData { status: self.status, headers: self.headers@, body: self.data@ }
    }
}

impl HTTPResponse {
    #[verifier::type_invariant]
    spec fn well_formed(self) -> bool {
        no_reserved(self.headers@)
    }

    /// A response with the given status and body and no further headers.
    pub fn new(status: Status, data: String) -> (r: HTTPResponse)
        ensures
            r@ == (ResponseData {
                status,
                headers: Fields::empty(),
                body: encode_utf8(data@),
            }),
    {
        HTTPResponse { status, data: bytes_of(data.as_str()), headers: Headers::new() }
    }

    /// A response with the given status and body bytes and no further headers.
    pub fn from_bytes(status: Status, data: Vec<u8>) -> (r: HTTPResponse)
        ensures
            r@ == (ResponseData { status, headers: Fields::empty(), body: data@ }),
    {
        HTTPResponse { status, data, headers: Headers::new() }
    }

    /// The status of the response.
    pub fn status(&self) -> (r: Status)
        ensures
            r == self@.status,
    {
        self.status
    }

    /// The body of the response.
    pub fn body(&self) -> (r: &Vec<u8>)
        ensures
            r@ == self@.body,
    {
        &self.data
    }

    /// The headers that were added, without the length header. No name
    /// occurs twice.
    pub fn headers(&self) -> (r: &Headers)
        ensures
            r@ == self@.headers,
            no_reserved(r@),
            unique_keys(r@),
    {
        proof {
            use_type_invariant(self);
            use_type_invariant(&self.headers);
        }
        &self.headers
    }

    /// Adds a header unless one of that name is already there. The length
    /// header is derived from the body and cannot be set: its name, in any
    /// letter case, is refused.
    pub fn add_header(&mut self, key: String, value: String)
        ensures
            final(self)@ == old(self)@.with_header(encode_utf8(key@), encode_utf8(value@)),
    {
        proof {
            use_type_invariant(&*self);
        }
        let name: Vec<u8> = bytes_of(key.as_str());
        proof {
            lemma_length_name_is_lower();
        }
        if same_bytes_ignoring_case(name.as_slice(), "content-length".as_bytes()) {
            return;
        }
        let mut headers: Headers = Headers::new();
        core::mem::swap(&mut self.headers, &mut headers);
        headers.add(name, bytes_of(value.as_str()));
        core::mem::swap(&mut self.headers, &mut headers);
    }

    /// The wire bytes of the response. Among the headers that were added
    /// no name occurs twice, and none is the length header's.
    pub fn serialize(&self) -> (r: Vec<u8>)
        ensures
            r@ == self@.bytes(),
            no_reserved(self@.headers),
            unique_keys(self@.headers),
    {
        proof {
            use_type_invariant(self);
            use_type_invariant(&self.headers);
        }
        let mut out: Vec<u8> = Vec::new();
        append(&mut out, "HTTP/1.1".as_bytes());
        out.push(32u8);
        append(&mut out, self.status.to_str().as_bytes());
        append(&mut out, "\r\n".as_bytes());
        append(&mut out, "Content-Length".as_bytes());
        append(&mut out, ": ".as_bytes());
        push_decimal(&mut out, self.data.len());
        append(&mut out, "\r\n".as_bytes());
        assert(out@ =~= preamble(self.status, self.data@.len()));
        let count: usize = self.headers.len();
        let mut i: usize = 0;
        while i < count
            invariant
                i <= count,
                count == self.headers@.len(),
                out@ == preamble(self.status, self.data@.len()) + header_lines(
                    self.headers@.take(i as int),
                ),
            decreases count - i,
        {
            let ghost before = out@;
            append(&mut out, self.headers.name_at(i).as_slice());
            append(&mut out, ": ".as_bytes());
            append(&mut out, self.headers.value_at(i).as_slice());
            append(&mut out, "\r\n".as_bytes());
            i += 1;
            proof {
                let fields = self.headers@.take(i as int);
                assert(fields.drop_last() =~= self.headers@.take(i - 1));
                assert(out@ =~= preamble(self.status, self.data@.len()) + header_lines(fields));
            }
        }
        assert(self.headers@.take(i as int) =~= self.headers@);
        append(&mut out, "\r\n".as_bytes());
        append(&mut out, self.data.as_slice());
        assert(out@ =~= self@.bytes());
        out
    }
}

/// The separator and the line terminator, byte by byte.
pub proof fn lemma_wire_constants()
    ensures
        separator() == seq![58u8, 32u8],
        crlf() == seq![13u8, 10u8],
{
    reveal_strlit(": ");
    reveal_strlit("\r\n");
    is_ascii_chars_encode_utf8(": "@);
    is_ascii_chars_encode_utf8("\r\n"@);
    assert(separator() =~= seq![58u8, 32u8]);
    assert(crlf() =~= seq![13u8, 10u8]);
}

/// The reserved name is its own lower-case form.
pub proof fn lemma_length_name_is_lower()
    ensures
        lower(length_name()) == length_name(),
        lower(length_label()) == length_name(),
{
    reveal_strlit("content-length");
    reveal_strlit("Content-Length");
    is_ascii_chars_encode_utf8("content-length"@);
    is_ascii_chars_encode_utf8("Content-Length"@);
    assert(lower(length_name()) =~= length_name());
    assert(lower(length_label()) =~= length_name());
}

/// The length header is derived from the body alone: whatever header a
/// caller tries to add, the wire bytes still start with the status line
/// and `Content-Length:` with the body's length, the body stays as it was,
/// and no added header bears the reserved name.
pub proof fn lemma_length_is_derived(response: ResponseData, name: Seq<u8>, value: Seq<u8>)
    ensures
        response.with_header(name, value).status == response.status,
        response.with_header(name, value).body == response.body,
        response.with_header(name, value).bytes().subrange(
            0,
            preamble(response.status, response.body.len()).len() as int,
        ) == preamble(response.status, response.body.len()),
        no_reserved(response.headers) ==> no_reserved(response.with_header(name, value).headers),
{
    let after = response.with_header(name, value);
    let start = preamble(response.status, response.body.len());
    assert(after.bytes().subrange(0, start.len() as int) =~= start);
}

/// No series of attempts to add headers touches the length header or
/// what is already there: the wire bytes still start with the status line
/// and `Content-Length:` with the body's length, no added header bears
/// the reserved name, and a name that had a value keeps it.
pub proof fn lemma_attempts_change_no_length(response: ResponseData, attempts: Fields)
    requires
        no_reserved(response.headers),
    ensures
        response.with_headers(attempts).status == response.status,
        response.with_headers(attempts).body == response.body,
        no_reserved(response.with_headers(attempts).headers),
        response.with_headers(attempts).bytes().subrange(
            0,
            preamble(response.status, response.body.len()).len() as int,
        ) == preamble(response.status, response.body.len()),
        forall|name: Seq<u8>| #[trigger]
            has_key(response.headers, name) ==> lookup(
                response.with_headers(attempts).headers,
                name,
            ) == lookup(response.headers, name),
    decreases attempts.len(),
{
    if attempts.len() == 0 {
        lemma_length_is_derived(response, Seq::<u8>::empty(), Seq::<u8>::empty());
        let start = preamble(response.status, response.body.len());
        assert(response.bytes().subrange(0, start.len() as int) =~= start);
    } else {
        let before = response.with_headers(attempts.drop_last());
        let name = attempts.last().0;
        let value = attempts.last().1;
        lemma_attempts_change_no_length(response, attempts.drop_last());
        lemma_length_is_derived(before, name, value);
        assert forall|other: Seq<u8>| #[trigger]
            has_key(response.headers, other) implies lookup(
            before.with_header(name, value).headers,
            other,
        ) == lookup(response.headers, other) by {
            if !is_reserved(name) {
                lemma_with_last_at(before.headers, name, value, other);
            }
        }
    }
}

/// The first write wins: a second attempt to add a header under the same
/// name changes nothing, and the name keeps the value it had after the first.
pub proof fn lemma_first_header_stays(
    response: ResponseData,
    name: Seq<u8>,
    first: Seq<u8>,
    second: Seq<u8>,
)
    ensures
        response.with_header(name, first).with_header(name, second) == response.with_header(
            name,
            first,
        ),
        !is_reserved(name) ==> lookup(response.with_header(name, first).headers, name) == if has_key(
            response.headers,
            name,
        ) {
            lookup(response.headers, name)
        } else {
            Some(first)
        },
{
    lemma_with_first(response.headers, name, first);
}

} // verus!
