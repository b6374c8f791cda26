//! The response statuses that the server can emit.

use vstd::prelude::*;
use vstd::utf8::encode_utf8;

verus! {

/// The status of a response.
#[derive(Debug, PartialEq, Eq, Structural, Clone, Copy)]
pub enum Status {
    OK,
    NotFound,
    SwitchingProtocols,
}

impl Status {
    /// The status text: the code, a space and the reason phrase.
    pub open spec fn text(self) -> Seq<char> {
        match self {
            Status::OK => "200 OK"@,
            Status::NotFound => "404 NOT FOUND"@,
            Status::SwitchingProtocols => "101 Switching Protocols"@,
        }
    }

    /// The bytes of the status text as they stand in a status line.
    pub open spec fn token(self) -> Seq<u8> {
        encode_utf8(self.text())
    }

    /// The numeric status code.
    pub open spec fn number(self) -> nat {
        match self {
            Status::OK => 200,
            Status::NotFound => 404,
            Status::SwitchingProtocols => 101,
        }
    }

    /// The status text, as it is written into the status line.
    pub fn to_str(self) -> (r: &'static str)
        ensures
            r@ == self.text(),
    {
        match self {
            Status::OK => "200 OK",
            Status::NotFound => "404 NOT FOUND",
            Status::SwitchingProtocols => "101 Switching Protocols",
        }
    }

    /// The numeric status code.
    pub fn code(self) -> (r: u16)
        ensures
            r == self.number(),
    {
        match self {
            Status::OK => 200,
            Status::NotFound => 404,
            Status::SwitchingProtocols => 101,
        }
    }
}

} // verus!
