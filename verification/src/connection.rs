//! The connection loop as a state machine without I/O.
//!
//! The embedding program performs each action that the loop asks for and
//! reports back what came of it. The loop serves one connection at a time.

use crate::ascii::append;
use crate::error::{ParseError, ParseFailure};
use crate::request::{outcome, parse_stream, HTTPRequest, RequestData};
use crate::server::{not_found_bytes, HttpServer, RouteKey};
use vstd::prelude::*;

verus! {

/// Where the loop stands.
#[derive(Debug, PartialEq, Eq, Structural, Clone, Copy)]
pub enum Phase {
    /// No connection is open and none is being waited for.
    Idle,
    /// The loop waits for the next connection.
    Accepting,
    /// A connection is open and its request is being read.
    Parsing,
    /// A handler is at work on the request.
    Dispatching,
    /// The loop's own response is being written.
    Responding,
    /// Accepting failed; the loop has ended.
    Stopped,
}

/// What came of the action that the loop asked for last.
#[derive(Debug, PartialEq, Eq)]
pub enum Event {
    /// The connection, if there was one, is closed: the loop may go on.
    Ready,
    /// A connection was accepted.
    Accepted,
    /// Bytes arrived on the connection.
    Received(Vec<u8>),
    /// The peer closed the stream.
    Closed,
    /// The handler returned, or the response was written.
    Done,
    /// The action failed.
    Failed,
}

/// How the serving of one connection ended.
#[derive(Debug, PartialEq, Eq)]
pub enum Outcome {
    /// A handler served the request.
    Served,
    /// No handler was registered; the loop answered itself.
    NotFound,
    /// The bytes were no request; nothing was answered.
    Rejected(ParseError),
    /// The handler reported a failure.
    HandlerFailed,
    /// Reading from the connection failed.
    ReadFailed,
    /// Writing the loop's own response failed.
    WriteFailed,
}

/// What the embedding program is to do next.
pub enum Action<'a, H> {
    /// Wait for the next connection.
    Accept,
    /// Read more bytes from the connection.
    Read,
    /// Hand the request to the handler, together with the connection.
    Invoke(&'a H, HTTPRequest),
    /// Write these bytes to the connection.
    Write(Vec<u8>),
    /// Close the connection.
    Close(Outcome),
    /// Leave the loop: accepting failed.
    Stop,
}

/// The mathematical value of an `Event`.
pub ghost enum EventData {
    Ready,
    Accepted,
    Received(Seq<u8>),
    Closed,
    Done,
    Failed,
}

/// The mathematical value of an `Outcome`.
pub ghost enum OutcomeData {
    Served,
    NotFound,
    Rejected(ParseFailure),
    HandlerFailed,
    ReadFailed,
    WriteFailed,
}

/// The mathematical value of an `Action`.
pub ghost enum ActionData<H> {
    Accept,
    Read,
    Invoke(H, RequestData),
    Write(Seq<u8>),
    Close(OutcomeData),
    Stop,
}

/// The state of the loop as a mathematical value: the phase and, while a
/// request is being read, the bytes received so far.
pub ghost struct LoopData {
    pub phase: Phase,
    pub received: Seq<u8>,
}

impl View for Event {
    type V = EventData;

    open spec fn view(&self) -> EventData {
        match self {
            Event::Ready => EventData::Ready,
            Event::Accepted => EventData::Accepted,
            Event::Received(bytes) => EventData::Received(bytes@),
            Event::Closed => EventData::Closed,
            Event::Done => EventData::Done,
            Event::Failed => EventData::Failed,
        }
    }
}

impl View for Outcome {
    type V = OutcomeData;

    open spec fn view(&self) -> OutcomeData {
        match self {
            Outcome::Served => OutcomeData::Served,
            Outcome::NotFound => OutcomeData::NotFound,
            Outcome::Rejected(error) => OutcomeData::Rejected(error@),
            Outcome::HandlerFailed => OutcomeData::HandlerFailed,
            Outcome::ReadFailed => OutcomeData::ReadFailed,
            Outcome::WriteFailed => OutcomeData::WriteFailed,
        }
    }
}

impl<'a, H> View for Action<'a, H> {
    type V = ActionData<H>;

    open spec fn view(&self) -> ActionData<H> {
        match self {
            Action::Accept => ActionData::Accept,
            Action::Read => ActionData::Read,
            Action::Invoke(handler, request) => ActionData::Invoke(**handler, request@),
            Action::Write(bytes) => ActionData::Write(bytes@),
            Action::Close(outcome) => ActionData::Close(outcome@),
            Action::Stop => ActionData::Stop,
        }
    }
}

/// Whether a connection is open in this phase.
pub open spec fn connection_open(phase: Phase) -> bool {
    phase == Phase::Parsing || phase == Phase::Dispatching || phase == Phase::Responding
}

/// The loop with no connection, in the given phase.
pub open spec fn at_rest(phase: Phase) -> LoopData {
    LoopData { phase, received: Seq::<u8>::empty() }
}

/// What follows once the outcome of reading the request is known: a
/// request goes to its handler or, where none is registered, is answered
/// with `404 NOT FOUND`; bytes that are no request close the connection
/// unanswered.
pub open spec fn dispatch<H>(
    parsed: Result<RequestData, ParseFailure>,
    routes: Map<RouteKey, H>,
    fallback: Seq<u8>,
) -> (LoopData, ActionData<H>) {
    match parsed {
        Err(failure) => (at_rest(Phase::Idle), ActionData::Close(OutcomeData::Rejected(failure))),
        Ok(request) => if routes.contains_key((request.method, request.target)) {
            (
                at_rest(Phase::Dispatching),
                ActionData::Invoke(routes[(request.method, request.target)], request),
            )
        } else {
            (at_rest(Phase::Responding), ActionData::Write(not_found_bytes(fallback)))
        },
    }
}

/// What follows once `received` stands for all the bytes that have
/// arrived, the stream being closed or not.
pub open spec fn after_bytes<H>(
    received: Seq<u8>,
    closed: bool,
    routes: Map<RouteKey, H>,
    fallback: Seq<u8>,
) -> (LoopData, ActionData<H>) {
    match parse_stream(received, closed) {
        None => (LoopData { phase: Phase::Parsing, received }, ActionData::Read),
        Some(parsed) => dispatch(parsed, routes, fallback),
    }
}

/// The transition function of the loop: the next state and the action to
/// perform, or `None` where the event cannot follow the action that the
/// loop asked for last.
pub open spec fn next<H>(
    state: LoopData,
    event: EventData,
    routes: Map<RouteKey, H>,
    fallback: Seq<u8>,
) -> Option<(LoopData, ActionData<H>)> {
    match (state.phase, event) {
        (Phase::Idle, EventData::Ready) => Some((at_rest(Phase::Accepting), ActionData::Accept)),
        (Phase::Accepting, EventData::Accepted) => Some(
            (at_rest(Phase::Parsing), ActionData::Read),
        ),
        (Phase::Accepting, EventData::Failed) => Some((at_rest(Phase::Stopped), ActionData::Stop)),
        (Phase::Parsing, EventData::Received(bytes)) => Some(
            after_bytes(state.received + bytes, false, routes, fallback),
        ),
        (Phase::Parsing, EventData::Closed) => Some(
            after_bytes(state.received, true, routes, fallback),
        ),
        (Phase::Parsing, EventData::Failed) => Some(
            (at_rest(Phase::Idle), ActionData::Close(OutcomeData::ReadFailed)),
        ),
        (Phase::Dispatching, EventData::Done) => Some(
            (at_rest(Phase::Idle), ActionData::Close(OutcomeData::Served)),
        ),
        (Phase::Dispatching, EventData::Failed) => Some(
            (at_rest(Phase::Idle), ActionData::Close(OutcomeData::HandlerFailed)),
        ),
        (Phase::Responding, EventData::Done) => Some(
            (at_rest(Phase::Idle), ActionData::Close(OutcomeData::NotFound)),
        ),
        (Phase::Responding, EventData::Failed) => Some(
            (at_rest(Phase::Idle), ActionData::Close(OutcomeData::WriteFailed)),
        ),
        _ => None,
    }
}

/// The connection loop: its phase and the bytes of the request being read.
#[derive(Debug)]
pub struct ConnectionLoop {
    phase: Phase,
    buffer: Vec<u8>,
}

impl View for ConnectionLoop {
    type V = LoopData;

    closed spec fn view(&self) -> LoopData {
        LoopData { phase: self.phase, received: self.buffer@ }
    }
}

impl ConnectionLoop {
    /// A loop that has not started: idle, with no connection.
    pub fn new() -> (r: ConnectionLoop)
        ensures
            r@ == at_rest(Phase::Idle),
    {
        ConnectionLoop { phase: Phase::Idle, buffer: Vec::new() }
    }

    /// Where the loop stands.
    pub fn phase(&self) -> (r: Phase)
        ensures
            r == self@.phase,
    {
        self.phase
    }

    fn settle<'a, H>(
        &mut self,
        server: &'a HttpServer<H>,
        parsed: Result<HTTPRequest, ParseError>,
    ) -> (r: Action<'a, H>)
        requires
            parsed is Ok ==> parsed->Ok_0.sent() == Seq::<u8>::empty(),
        ensures
            (final(self)@, r@) == dispatch(
                outcome(parsed),
                server.routes(),
                server.not_found_body(),
            ),
            r matches Action::Invoke(_, request) ==> request.sent() == Seq::<u8>::empty(),
    {
        self.buffer = Vec::new();
        match parsed {
            Err(error) => {
                self.phase = Phase::Idle;
                Action::Close(Outcome::Rejected(error))
            },
            Ok(request) => match server.route(&request) {
                Some(handler) => {
                    self.phase = Phase::Dispatching;
                    Action::Invoke(handler, request)
                },
                None => {
                    self.phase = Phase::Responding;
                    Action::Write(server.not_found())
                },
            },
        }
    }

    fn examine<'a, H>(&mut self, server: &'a HttpServer<H>, closed: bool) -> (r: Action<'a, H>)
        requires
            old(self)@.phase == Phase::Parsing,
        ensures
            (final(self)@, r@) == after_bytes(
                old(self)@.received,
                closed,
                server.routes(),
                server.not_found_body(),
            ),
            r matches Action::Invoke(_, request) ==> request.sent() == Seq::<u8>::empty(),
    {
        match HTTPRequest::poll(self.buffer.as_slice(), closed) {
            None => Action::Read,
            Some(parsed) => self.settle(server, parsed),
        }
    }

    /// Takes in what came of the last action and says what to do next.
    /// An event that cannot follow the last action is refused with `None`
    /// and changes nothing.
    pub fn step<'a, H>(&mut self, server: &'a HttpServer<H>, event: Event) -> (r: Option<
        Action<'a, H>,
    >)
        ensures
            match next(old(self)@, event@, server.routes(), server.not_found_body()) {
                Some((state, action)) => final(self)@ == state && r is Some && r->0@ == action,
                None => final(self)@ == old(self)@ && r is None,
            },
            r matches Some(Action::Invoke(_, request)) ==> request.sent() == Seq::<u8>::empty(),
    {
        match self.phase {
            Phase::Idle => match event {
                Event::Ready => {
                    self.rest(Phase::Accepting);
                    Some(Action::Accept)
                },
                _ => None,
            },
            Phase::Accepting => match event {
                Event::Accepted => {
                    self.rest(Phase::Parsing);
                    Some(Action::Read)
                },
                Event::Failed => {
                    self.rest(Phase::Stopped);
                    Some(Action::Stop)
                },
                _ => None,
            },
            Phase::Parsing => match event {
                Event::Received(bytes) => {
                    append(&mut self.buffer, bytes.as_slice());
                    Some(self.examine(server, false))
                },
                Event::Closed => Some(self.examine(server, true)),
                Event::Failed => {
                    self.rest(Phase::Idle);
                    Some(Action::Close(Outcome::ReadFailed))
                },
                _ => None,
            },
            Phase::Dispatching => match event {
                Event::Done => {
                    self.rest(Phase::Idle);
                    Some(Action::Close(Outcome::Served))
                },
                Event::Failed => {
                    self.rest(Phase::Idle);
                    Some(Action::Close(Outcome::HandlerFailed))
                },
                _ => None,
            },
            Phase::Responding => match event {
                Event::Done => {
                    self.rest(Phase::Idle);
                    Some(Action::Close(Outcome::NotFound))
                },
                Event::Failed => {
                    self.rest(Phase::Idle);
                    Some(Action::Close(Outcome::WriteFailed))
                },
                _ => None,
            },
            Phase::Stopped => None,
        }
    }

    fn rest(&mut self, phase: Phase)
        ensures
            final(self)@ == at_rest(phase),
    {
        self.phase = phase;
        self.buffer = Vec::new();
    }
}

/// A failure to accept ends the loop, and an ended loop takes no event.
pub proof fn lemma_accept_failure_is_fatal<H>(
    state: LoopData,
    event: EventData,
    routes: Map<RouteKey, H>,
    fallback: Seq<u8>,
)
    ensures
        state.phase == Phase::Accepting && event == EventData::Failed ==> next(
            state,
            event,
            routes,
            fallback,
        ) == Some((at_rest(Phase::Stopped), ActionData::<H>::Stop)),
        state.phase == Phase::Stopped ==> next(state, event, routes, fallback) is None,
{
}

/// Whatever happens while a connection is served stays with that
/// connection: the loop does not end.
pub proof fn lemma_connection_errors_are_confined<H>(
    state: LoopData,
    event: EventData,
    routes: Map<RouteKey, H>,
    fallback: Seq<u8>,
)
    requires
        connection_open(state.phase),
    ensures
        next(state, event, routes, fallback) matches Some((after, action)) ==> after.phase
            != Phase::Stopped && action != ActionData::<H>::Stop,
{
}

/// The loop serves one connection at a time: it asks for the next
/// connection only while none is open, and a connection that is opened
/// is closed before the loop is idle again.
pub proof fn lemma_one_connection_at_a_time<H>(
    state: LoopData,
    event: EventData,
    routes: Map<RouteKey, H>,
    fallback: Seq<u8>,
)
    ensures
        next(state, event, routes, fallback) matches Some((after, action)) ==> {
            &&& action == ActionData::<H>::Accept ==> state.phase == Phase::Idle
            &&& connection_open(after.phase) ==> connection_open(state.phase) || state.phase
                == Phase::Accepting
            &&& connection_open(state.phase) && !connection_open(after.phase) ==> action is Close
                && after.phase == Phase::Idle
        },
{
}

} // verus!
