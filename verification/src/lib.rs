//! A minimal HTTP/1.1 server core that performs no I/O of its own.
//!
//! The crate turns the bytes of one connection into a request, selects a
//! handler by exact method and path, and renders responses as wire bytes.
//! Sockets, logging and process start-up belong to the embedding program.

pub mod ascii;
pub mod assoc;
pub mod connection;
pub mod error;
pub mod framing;
pub mod headers;
pub mod method;
pub mod request;
pub mod response;
pub mod server;
pub mod status;

pub use connection::{Action, ConnectionLoop, Event, Outcome, Phase};
pub use error::ParseError;
pub use headers::Headers;
pub use method::Method;
pub use request::HTTPRequest;
pub use response::HTTPResponse;
pub use server::{HttpServer, RoutingTable};
pub use status::Status;
