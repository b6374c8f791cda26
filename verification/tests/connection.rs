use http_core::{
    Action, ConnectionLoop, Event, HTTPRequest, HttpServer, Outcome, ParseError, Phase,
};

type Handler = fn(&mut HTTPRequest);

fn say_hi(request: &mut HTTPRequest) {
    request.send("hi");
}

fn opened(server: &HttpServer<Handler>) -> ConnectionLoop {
    let mut machine = ConnectionLoop::new();
    assert_eq!(machine.phase(), Phase::Idle);
    assert!(matches!(machine.step(server, Event::Ready), Some(Action::Accept)));
    assert_eq!(machine.phase(), Phase::Accepting);
    assert!(matches!(machine.step(server, Event::Accepted), Some(Action::Read)));
    assert_eq!(machine.phase(), Phase::Parsing);
    machine
}

#[test]
fn a_registered_handler_answers() {
    let mut server: HttpServer<Handler> = HttpServer::new(8080);
    server.get("/hello".to_string(), say_hi);
    let mut machine = opened(&server);
    let input = b"GET /hello HTTP/1.1\r\nHost: x\r\n\r\n".to_vec();
    let output = match machine.step(&server, Event::Received(input)) {
        Some(Action::Invoke(handler, mut request)) => {
            handler(&mut request);
            request.outgoing().clone()
        }
        _ => panic!("no handler was asked for"),
    };
    assert_eq!(machine.phase(), Phase::Dispatching);
    assert!(output.starts_with(b"HTTP/1.1 200 OK\r\nContent-Length: 2\r\n"));
    assert!(output.ends_with(b"hi"));
    assert_eq!(output, b"HTTP/1.1 200 OK\r\nContent-Length: 2\r\n\r\nhi".to_vec());
    match machine.step(&server, Event::Done) {
        Some(Action::Close(outcome)) => assert_eq!(outcome, Outcome::Served),
        _ => panic!("the connection was not closed"),
    }
    assert_eq!(machine.phase(), Phase::Idle);
}

#[test]
fn no_handler_means_not_found() {
    let server: HttpServer<Handler> = HttpServer::new(8080);
    let mut machine = opened(&server);
    let input = b"GET /hello HTTP/1.1\r\nHost: x\r\n\r\n".to_vec();
    match machine.step(&server, Event::Received(input)) {
        Some(Action::Write(bytes)) => assert_eq!(
            bytes,
            b"HTTP/1.1 404 NOT FOUND\r\nContent-Length: 3\r\n\r\n404".to_vec()
        ),
        _ => panic!("nothing was written"),
    }
    assert_eq!(machine.phase(), Phase::Responding);
    match machine.step(&server, Event::Done) {
        Some(Action::Close(outcome)) => assert_eq!(outcome, Outcome::NotFound),
        _ => panic!("the connection was not closed"),
    }
    assert_eq!(machine.phase(), Phase::Idle);
}

#[test]
fn a_handler_under_another_method_is_not_asked() {
    let mut server: HttpServer<Handler> = HttpServer::new(8080);
    server.post("/hello".to_string(), say_hi);
    let mut machine = opened(&server);
    let input = b"GET /hello HTTP/1.1\r\n\r\n".to_vec();
    assert!(matches!(
        machine.step(&server, Event::Received(input)),
        Some(Action::Write(_))
    ));
}

#[test]
fn a_truncated_body_closes_the_connection_unanswered() {
    let mut server: HttpServer<Handler> = HttpServer::new(8080);
    server.post("/p".to_string(), say_hi);
    let mut machine = opened(&server);
    let input = b"POST /p HTTP/1.1\r\ncontent-length: 5\r\n\r\nhel".to_vec();
    assert!(matches!(
        machine.step(&server, Event::Received(input)),
        Some(Action::Read)
    ));
    assert_eq!(machine.phase(), Phase::Parsing);
    match machine.step(&server, Event::Closed) {
        Some(Action::Close(outcome)) => {
            assert_eq!(outcome, Outcome::Rejected(ParseError::TruncatedBody))
        }
        _ => panic!("the connection was not closed"),
    }
    assert_eq!(machine.phase(), Phase::Idle);
    assert!(matches!(machine.step(&server, Event::Ready), Some(Action::Accept)));
}

#[test]
fn a_request_may_arrive_in_pieces() {
    let mut server: HttpServer<Handler> = HttpServer::new(8080);
    server.post("/p".to_string(), say_hi);
    let mut machine = opened(&server);
    let pieces: [&[u8]; 4] = [b"POST /p HT", b"TP/1.1\r\nContent-Le", b"ngth: 4\r\n\r\nbo", b"dy"];
    for piece in &pieces[..3] {
        assert!(matches!(
            machine.step(&server, Event::Received(piece.to_vec())),
            Some(Action::Read)
        ));
    }
    match machine.step(&server, Event::Received(pieces[3].to_vec())) {
        Some(Action::Invoke(_, request)) => assert_eq!(request.body(), &b"body".to_vec()),
        _ => panic!("no handler was asked for"),
    }
}

#[test]
fn a_malformed_request_is_rejected_at_once() {
    let server: HttpServer<Handler> = HttpServer::new(8080);
    let mut machine = opened(&server);
    match machine.step(&server, Event::Received(b"nonsense\r\n".to_vec())) {
        Some(Action::Close(outcome)) => {
            assert_eq!(outcome, Outcome::Rejected(ParseError::MalformedRequestLine))
        }
        _ => panic!("the connection was not closed"),
    }
    assert_eq!(machine.phase(), Phase::Idle);
}

#[test]
fn a_failure_to_accept_ends_the_loop() {
    let server: HttpServer<Handler> = HttpServer::new(8080);
    let mut machine = ConnectionLoop::new();
    assert!(matches!(machine.step(&server, Event::Ready), Some(Action::Accept)));
    assert!(matches!(machine.step(&server, Event::Failed), Some(Action::Stop)));
    assert_eq!(machine.phase(), Phase::Stopped);
    assert!(machine.step(&server, Event::Ready).is_none());
    assert!(machine.step(&server, Event::Accepted).is_none());
    assert_eq!(machine.phase(), Phase::Stopped);
}

#[test]
fn failures_on_a_connection_do_not_end_the_loop() {
    let mut server: HttpServer<Handler> = HttpServer::new(8080);
    server.get("/".to_string(), say_hi);

    let mut machine = opened(&server);
    match machine.step(&server, Event::Failed) {
        Some(Action::Close(outcome)) => assert_eq!(outcome, Outcome::ReadFailed),
        _ => panic!("the connection was not closed"),
    }
    assert_eq!(machine.phase(), Phase::Idle);

    let mut machine = opened(&server);
    assert!(matches!(
        machine.step(&server, Event::Received(b"GET / HTTP/1.1\r\n\r\n".to_vec())),
        Some(Action::Invoke(_, _))
    ));
    match machine.step(&server, Event::Failed) {
        Some(Action::Close(outcome)) => assert_eq!(outcome, Outcome::HandlerFailed),
        _ => panic!("the connection was not closed"),
    }
    assert_eq!(machine.phase(), Phase::Idle);

    let mut machine = opened(&server);
    assert!(matches!(
        machine.step(&server, Event::Received(b"GET /x HTTP/1.1\r\n\r\n".to_vec())),
        Some(Action::Write(_))
    ));
    match machine.step(&server, Event::Failed) {
        Some(Action::Close(outcome)) => assert_eq!(outcome, Outcome::WriteFailed),
        _ => panic!("the connection was not closed"),
    }
    assert_eq!(machine.phase(), Phase::Idle);
    assert!(matches!(machine.step(&server, Event::Ready), Some(Action::Accept)));
}

#[test]
fn an_event_out_of_turn_is_refused() {
    let server: HttpServer<Handler> = HttpServer::new(8080);
    let mut machine = ConnectionLoop::new();
    assert!(machine.step(&server, Event::Accepted).is_none());
    assert!(machine.step(&server, Event::Received(b"GET".to_vec())).is_none());
    assert!(machine.step(&server, Event::Done).is_none());
    assert_eq!(machine.phase(), Phase::Idle);
    let mut machine = opened(&server);
    assert!(machine.step(&server, Event::Ready).is_none());
    assert!(machine.step(&server, Event::Accepted).is_none());
    assert!(machine.step(&server, Event::Done).is_none());
    assert_eq!(machine.phase(), Phase::Parsing);
    assert!(matches!(
        machine.step(&server, Event::Received(b"GET / HTTP/1.1\r\n\r\n".to_vec())),
        Some(Action::Write(_))
    ));
}

#[test]
fn one_connection_after_the_other() {
    let mut server: HttpServer<Handler> = HttpServer::new(8080);
    server.get("/hello".to_string(), say_hi);
    let mut machine = ConnectionLoop::new();
    for _ in 0..3 {
        assert!(matches!(machine.step(&server, Event::Ready), Some(Action::Accept)));
        assert!(matches!(machine.step(&server, Event::Accepted), Some(Action::Read)));
        assert!(matches!(
            machine.step(&server, Event::Received(b"GET /hello HTTP/1.1\r\n\r\n".to_vec())),
            Some(Action::Invoke(_, _))
        ));
        assert!(matches!(machine.step(&server, Event::Done), Some(Action::Close(_))));
    }
}
