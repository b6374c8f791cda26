//! The request methods that the server knows.

use crate::ascii::{lower, same_bytes_ignoring_case};
use crate::error::{ParseError, ParseFailure};
use vstd::prelude::*;
use vstd::slice::slice_to_vec;
use vstd::string::StringSliceAdditionalSpecFns;
use vstd::utf8::{encode_utf8, is_ascii_chars_encode_utf8};

verus! {

/// An HTTP request method.
#[derive(Debug, PartialEq, Eq, Structural, Hash, Clone, Copy)]
pub enum Method {
    OPTIONS,
    GET,
    HEAD,
    POST,
    PUT,
    DELETE,
    TRACE,
    CONNECT,
}

impl Method {
    /// The method's name: the upper-case verb.
    pub open spec fn name(self) -> Seq<char> {
        match self {
            Method::OPTIONS => "OPTIONS"@,
            Method::GET => "GET"@,
            Method::HEAD => "HEAD"@,
            Method::POST => "POST"@,
            Method::PUT => "PUT"@,
            Method::DELETE => "DELETE"@,
            Method::TRACE => "TRACE"@,
            Method::CONNECT => "CONNECT"@,
        }
    }

    /// The bytes of the method's name as they stand in a request line.
    pub open spec fn token(self) -> Seq<u8> {
        encode_utf8(self.name())
    }

    /// The method that a token names, whatever the case of its letters.
    pub open spec fn named_by(text: Seq<u8>) -> Option<Method> {
        if lower(text) == lower(Method::OPTIONS.token()) {
            Some(Method::OPTIONS)
        } else if lower(text) == lower(Method::GET.token()) {
            Some(Method::GET)
        } else if lower(text) == lower(Method::HEAD.token()) {
            Some(Method::HEAD)
        } else if lower(text) == lower(Method::POST.token()) {
            Some(Method::POST)
        } else if lower(text) == lower(Method::PUT.token()) {
            Some(Method::PUT)
        } else if lower(text) == lower(Method::DELETE.token()) {
            Some(Method::DELETE)
        } else if lower(text) == lower(Method::TRACE.token()) {
            Some(Method::TRACE)
        } else if lower(text) == lower(Method::CONNECT.token()) {
            Some(Method::CONNECT)
        } else {
            None
        }
    }

    /// The tokens of the eight methods, byte by byte.
    pub proof fn lemma_tokens()
        ensures
            Method::OPTIONS.token() == seq![79u8, 80u8, 84u8, 73u8, 79u8, 78u8, 83u8],
            Method::GET.token() == seq![71u8, 69u8, 84u8],
            Method::HEAD.token() == seq![72u8, 69u8, 65u8, 68u8],
            Method::POST.token() == seq![80u8, 79u8, 83u8, 84u8],
            Method::PUT.token() == seq![80u8, 85u8, 84u8],
            Method::DELETE.token() == seq![68u8, 69u8, 76u8, 69u8, 84u8, 69u8],
            Method::TRACE.token() == seq![84u8, 82u8, 65u8, 67u8, 69u8],
            Method::CONNECT.token() == seq![67u8, 79u8, 78u8, 78u8, 69u8, 67u8, 84u8],
    {
        reveal_strlit("OPTIONS");
        reveal_strlit("GET");
        reveal_strlit("HEAD");
        reveal_strlit("POST");
        reveal_strlit("PUT");
        reveal_strlit("DELETE");
        reveal_strlit("TRACE");
        reveal_strlit("CONNECT");
        is_ascii_chars_encode_utf8("OPTIONS"@);
        is_ascii_chars_encode_utf8("GET"@);
        is_ascii_chars_encode_utf8("HEAD"@);
        is_ascii_chars_encode_utf8("POST"@);
        is_ascii_chars_encode_utf8("PUT"@);
        is_ascii_chars_encode_utf8("DELETE"@);
        is_ascii_chars_encode_utf8("TRACE"@);
        is_ascii_chars_encode_utf8("CONNECT"@);
        assert(Method::OPTIONS.token() =~= seq![79u8, 80u8, 84u8, 73u8, 79u8, 78u8, 83u8]);
        assert(Method::GET.token() =~= seq![71u8, 69u8, 84u8]);
        assert(Method::HEAD.token() =~= seq![72u8, 69u8, 65u8, 68u8]);
        assert(Method::POST.token() =~= seq![80u8, 79u8, 83u8, 84u8]);
        assert(Method::PUT.token() =~= seq![80u8, 85u8, 84u8]);
        assert(Method::DELETE.token() =~= seq![68u8, 69u8, 76u8, 69u8, 84u8, 69u8]);
        assert(Method::TRACE.token() =~= seq![84u8, 82u8, 65u8, 67u8, 69u8]);
        assert(Method::CONNECT.token() =~= seq![67u8, 79u8, 78u8, 78u8, 69u8, 67u8, 84u8]);
    }

    /// The exact upper-case verb of the method.
    pub fn to_str(self) -> (r: &'static str)
        ensures
            r@ == self.name(),
    {
        match self {
            Method::OPTIONS => "OPTIONS",
            Method::GET => "GET",
            Method::HEAD => "HEAD",
            Method::POST => "POST",
            Method::PUT => "PUT",
            Method::DELETE => "DELETE",
            Method::TRACE => "TRACE",
            Method::CONNECT => "CONNECT",
        }
    }

    /// The method named by a request-line token, matched without regard to
    /// letter case; any other token is reported back as `UnknownMethod`.
    pub fn from_bytes(text: &[u8]) -> (r: Result<Method, ParseError>)
        ensures
            match Method::named_by(text@) {
                Some(m) => r == Ok::<Method, ParseError>(m),
                None => r is Err && r->Err_0@ == ParseFailure::UnknownMethod(text@),
            },
    {
        if same_bytes_ignoring_case(text, Method::OPTIONS.to_str().as_bytes()) {
            Ok(Method::OPTIONS)
        } else if same_bytes_ignoring_case(text, Method::GET.to_str().as_bytes()) {
            Ok(Method::GET)
        } else if same_bytes_ignoring_case(text, Method::HEAD.to_str().as_bytes()) {
            Ok(Method::HEAD)
        } else if same_bytes_ignoring_case(text, Method::POST.to_str().as_bytes()) {
            Ok(Method::POST)
        } else if same_bytes_ignoring_case(text, Method::PUT.to_str().as_bytes()) {
            Ok(Method::PUT)
        } else if same_bytes_ignoring_case(text, Method::DELETE.to_str().as_bytes()) {
            Ok(Method::DELETE)
        } else if same_bytes_ignoring_case(text, Method::TRACE.to_str().as_bytes()) {
            Ok(Method::TRACE)
        } else if same_bytes_ignoring_case(text, Method::CONNECT.to_str().as_bytes()) {
            Ok(Method::CONNECT)
        } else {
            Err(ParseError::UnknownMethod(slice_to_vec(text)))
        }
    }

    /// The method named by `text`, matched without regard to letter case.
    pub fn from_str(text: &str) -> (r: Result<Method, ParseError>)
        ensures
            match Method::named_by(text.spec_bytes()) {
                Some(m) => r == Ok::<Method, ParseError>(m),
                None => r is Err && r->Err_0@ == ParseFailure::UnknownMethod(text.spec_bytes()),
            },
    {
        Method::from_bytes(text.as_bytes())
    }
}

/// Method names are matched without regard to letter case: two texts that
/// differ only in the case of their letters name the same method, or both none.
pub proof fn lemma_case_is_ignored(a: Seq<u8>, b: Seq<u8>)
    requires
        lower(a) == lower(b),
    ensures
        Method::named_by(a) == Method::named_by(b),
{
}

/// Every method is named by its own token, in upper case as in lower case.
pub proof fn lemma_token_names_method(method: Method)
    ensures
        Method::named_by(method.token()) == Some(method),
        Method::named_by(lower(method.token())) == Some(method),
        forall|i: int| 0 <= i < method.token().len() ==> 65 <= #[trigger] method.token()[i] <= 90,
{
    Method::lemma_tokens();
    let options = Method::OPTIONS.token();
    let get = Method::GET.token();
    let head = Method::HEAD.token();
    let post = Method::POST.token();
    let put = Method::PUT.token();
    let delete = Method::DELETE.token();
    let trace = Method::TRACE.token();
    let connect = Method::CONNECT.token();
    assert(lower(options).len() == 7 && lower(options)[0] == 111);
    assert(lower(get).len() == 3 && lower(get)[0] == 103);
    assert(lower(head).len() == 4 && lower(head)[0] == 104);
    assert(lower(post).len() == 4 && lower(post)[0] == 112);
    assert(lower(put).len() == 3 && lower(put)[0] == 112);
    assert(lower(delete).len() == 6);
    assert(lower(trace).len() == 5);
    assert(lower(connect).len() == 7 && lower(connect)[0] == 99);
    assert(lower(lower(method.token())) =~= lower(method.token()));
}

} // verus!
