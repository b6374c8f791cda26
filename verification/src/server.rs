//! The routing table and the server that owns it.

use crate::ascii::{bytes_of, same_bytes};
use crate::assoc::{as_map, first_key, lemma_with_last, unique_keys, with_last};
use crate::method::Method;
use crate::request::HTTPRequest;
use crate::response::{wire, HTTPResponse};
use crate::status::Status;
use crate::headers::Fields;
use vstd::prelude::*;
use vstd::string::StringSliceAdditionalSpecFns;
use vstd::utf8::encode_utf8;

verus! {

/// What selects a handler: a method and a path, both matched exactly.
pub type RouteKey = (Method, Seq<u8>);

struct Route<H> {
    method: Method,
    path: Vec<u8>,
    handler: H,
}

/// A mapping from method and path to a handler. A handler is found only
/// under the very method and path it was registered with.
pub struct RoutingTable<H> {
    routes: Vec<Route<H>>,
}

impl<H> RoutingTable<H> {
    spec fn entries(self) -> Seq<(RouteKey, H)> {
        Seq::new(
            self.routes@.len(),
            |i: int| ((self.routes@[i].method, self.routes@[i].path@), self.routes@[i].handler),
        )
    }

    #[verifier::type_invariant]
    spec fn well_formed(self) -> bool {
        unique_keys(self.entries())
    }

    /// The table as a mapping.
    pub closed spec fn view(&self) -> Map<RouteKey, H> {
        as_map(self.entries())
    }

    /// An empty table.
    pub fn new() -> (r: RoutingTable<H>)
        ensures
            r@ == Map::<RouteKey, H>::empty(),
    {
        let r = RoutingTable { routes: Vec::new() };
        assert(r@ =~= Map::<RouteKey, H>::empty());
        r
    }

    fn position(&self, method: Method, path: &[u8]) -> (r: usize)
        ensures
            r == first_key(self.entries(), (method, path@), 0),
            r <= self.routes.len(),
    {
        let mut i: usize = 0;
        while i < self.routes.len() && !(self.routes[i].method == method && same_bytes(
            self.routes[i].path.as_slice(),
            path,
        ))
            invariant
                i <= self.routes.len(),
                self.routes.len() == self.entries().len(),
                first_key(self.entries(), (method, path@), 0) == first_key(
                    self.entries(),
                    (method, path@),
                    i as int,
                ),
            decreases self.routes.len() - i,
        {
            i += 1;
        }
        i
    }

    /// Registers `handler` under `method` and `path`, in place of any
    /// handler registered under them before.
    pub fn register(&mut self, method: Method, path: Vec<u8>, handler: H)
        ensures
            final(self)@ == old(self)@.insert((method, path@), handler),
    {
        proof {
            use_type_invariant(&*self);
            lemma_with_last(self.entries(), (method, path@), handler);
        }
        let ghost before = self.entries();
        let i: usize = self.position(method, path.as_slice());
        let mut routes: Vec<Route<H>> = Vec::new();
        core::mem::swap(&mut self.routes, &mut routes);
        assert(self.entries() =~= Seq::<(RouteKey, H)>::empty());
        if i < routes.len() {
            routes.set(i, Route { method, path, handler });
        } else {
            routes.push(Route { method, path, handler });
        }
        assert(Seq::new(
            routes@.len(),
            |i: int| ((routes@[i].method, routes@[i].path@), routes@[i].handler),
        ) =~= with_last(before, (method, path@), handler));
        core::mem::swap(&mut self.routes, &mut routes);
    }

    /// The handler registered under exactly this method and path.
    pub fn lookup(&self, method: Method, path: &[u8]) -> (r: Option<&H>)
        ensures
            match r {
                Some(handler) => self@.contains_key((method, path@)) && *handler == self@[(
                    method,
                    path@,
                )],
                None => !self@.contains_key((method, path@)),
            },
    {
        let i: usize = self.position(method, path);
        if i < self.routes.len() {
            Some(&self.routes[i].handler)
        } else {
            None
        }
    }
}

/// The body of the response to a request that no handler is registered
/// for, unless the server is given another.
pub open spec fn default_not_found_body() -> Seq<u8> {
    "404".spec_bytes()
}

/// The wire bytes of a `404 NOT FOUND` response with the given body.
pub open spec fn not_found_bytes(body: Seq<u8>) -> Seq<u8> {
    wire(Status::NotFound, Fields::empty(), body)
}

/// A server: the port it is meant to listen on, the handlers it dispatches
/// to, and the body it answers with where no handler is registered.
pub struct HttpServer<H> {
    port: i32,
    functions: RoutingTable<H>,
    fallback: Vec<u8>,
}

impl<H> HttpServer<H> {
    /// The port that the server is meant to listen on.
    pub closed spec fn port_number(&self) -> i32 {
        self.port
    }

    /// The registered handlers by method and path.
    pub closed spec fn routes(&self) -> Map<RouteKey, H> {
        self.functions@
    }

    /// The body of the response to a request that no handler is registered for.
    pub closed spec fn not_found_body(&self) -> Seq<u8> {
        self.fallback@
    }

    /// A server for `port` with no handlers. It answers a request that no
    /// handler is registered for with the body `404`.
    pub fn new(port: i32) -> (r: HttpServer<H>)
        ensures
            r.port_number() == port,
            r.routes() == Map::<RouteKey, H>::empty(),
            r.not_found_body() == default_not_found_body(),
    {
        HttpServer { port, functions: RoutingTable::new(), fallback: bytes_of("404") }
    }

    /// A server like that of `new`, but with its own body for the response
    /// to a request that no handler is registered for.
    pub fn with_not_found_body(port: i32, body: String) -> (r: HttpServer<H>)
        ensures
            r.port_number() == port,
            r.routes() == Map::<RouteKey, H>::empty(),
            r.not_found_body() == encode_utf8(body@),
    {
        HttpServer { port, functions: RoutingTable::new(), fallback: bytes_of(body.as_str()) }
    }

    /// The port that the server is meant to listen on.
    pub fn port(&self) -> (r: i32)
        ensures
            r == self.port_number(),
    {
        self.port
    }

    /// Registers `func` for `GET` requests to `url`.
    pub fn get(&mut self, url: String, func: H)
        ensures
            final(self).port_number() == old(self).port_number(),
            final(self).not_found_body() == old(self).not_found_body(),
            final(self).routes() == old(self).routes().insert(
                (Method::GET, encode_utf8(url@)),
                func,
            ),
    {
        self.add_method(Method::GET, url, func);
    }

    /// Registers `func` for `POST` requests to `url`.
    pub fn post(&mut self, url: String, func: H)
        ensures
            final(self).port_number() == old(self).port_number(),
            final(self).not_found_body() == old(self).not_found_body(),
            final(self).routes() == old(self).routes().insert(
                (Method::POST, encode_utf8(url@)),
                func,
            ),
    {
        self.add_method(Method::POST, url, func);
    }

    /// Registers `func` for requests to `url` with the method `method`. A
    /// later registration under the same method and path replaces an
    /// earlier one.
    pub fn add_method(&mut self, method: Method, url: String, func: H)
        ensures
            final(self).port_number() == old(self).port_number(),
            final(self).not_found_body() == old(self).not_found_body(),
            final(self).routes() == old(self).routes().insert((method, encode_utf8(url@)), func),
    {
        self.functions.register(method, bytes_of(url.as_str()), func);
    }

    /// The handler registered under exactly this method and path.
    pub fn lookup(&self, method: Method, path: &[u8]) -> (r: Option<&H>)
        ensures
            match r {
                Some(handler) => self.routes().contains_key((method, path@)) && *handler
                    == self.routes()[(method, path@)],
                None => !self.routes().contains_key((method, path@)),
            },
    {
        self.functions.lookup(method, path)
    }

    /// The handler for a request, selected by its method and target.
    pub fn route(&self, request: &HTTPRequest) -> (r: Option<&H>)
        ensures
            match r {
                Some(handler) => self.routes().contains_key((request@.method, request@.target))
                    && *handler == self.routes()[(request@.method, request@.target)],
                None => !self.routes().contains_key((request@.method, request@.target)),
            },
    {
        self.functions.lookup(request.method(), request.target().as_slice())
    }

    /// The response to a request that no handler is registered for.
    pub fn not_found(&self) -> (r: Vec<u8>)
        ensures
            r@ == not_found_bytes(self.not_found_body()),
    {
        HTTPResponse::from_bytes(Status::NotFound, self.fallback.clone()).serialize()
    }
}

/// Routing is by exact match: after a registration the handler is found
/// under its own method and path, and every other method or path leads to
/// what it led to before; in a table that held nothing else, to nothing.
pub proof fn lemma_exact_match<H>(
    routes: Map<RouteKey, H>,
    method: Method,
    path: Seq<u8>,
    handler: H,
    other_method: Method,
    other_path: Seq<u8>,
)
    ensures
        routes.insert((method, path), handler).contains_key((method, path)),
        routes.insert((method, path), handler)[(method, path)] == handler,
        other_method != method || other_path != path ==> {
            &&& routes.insert((method, path), handler).contains_key((other_method, other_path))
                == routes.contains_key((other_method, other_path))
            &&& routes.contains_key((other_method, other_path)) ==> routes.insert(
                (method, path),
                handler,
            )[(other_method, other_path)] == routes[(other_method, other_path)]
            &&& !Map::<RouteKey, H>::empty().insert((method, path), handler).contains_key(
                (other_method, other_path),
            )
        },
{
}

/// Of two registrations under one method and path the later one stays.
pub proof fn lemma_last_registration_wins<H>(
    routes: Map<RouteKey, H>,
    method: Method,
    path: Seq<u8>,
    earlier: H,
    later: H,
)
    ensures
        routes.insert((method, path), earlier).insert((method, path), later) == routes.insert(
            (method, path),
            later,
        ),
{
    assert(routes.insert((method, path), earlier).insert((method, path), later) =~= routes.insert(
        (method, path),
        later,
    ));
}

} // verus!
