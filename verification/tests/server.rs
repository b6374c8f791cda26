use http_core::{HTTPRequest, HttpServer, Method, RoutingTable};

#[test]
fn a_handler_is_found_under_its_own_method_and_path_only() {
    let mut server: HttpServer<u32> = HttpServer::new(8080);
    server.get("/a".to_string(), 1);
    assert_eq!(server.lookup(Method::GET, b"/a"), Some(&1));
    assert_eq!(server.lookup(Method::POST, b"/a"), None);
    assert_eq!(server.lookup(Method::GET, b"/b"), None);
}

#[test]
fn paths_are_not_normalised() {
    let mut server: HttpServer<u32> = HttpServer::new(8080);
    server.get("/a".to_string(), 1);
    assert_eq!(server.lookup(Method::GET, b"/a/"), None);
    assert_eq!(server.lookup(Method::GET, b"/A"), None);
    assert_eq!(server.lookup(Method::GET, b"/"), None);
    assert_eq!(server.lookup(Method::GET, b""), None);
    assert_eq!(server.lookup(Method::GET, b"/a?x=1"), None);
}

#[test]
fn the_last_registration_wins() {
    let mut server: HttpServer<u32> = HttpServer::new(8080);
    server.get("/a".to_string(), 1);
    server.post("/a".to_string(), 2);
    server.get("/a".to_string(), 3);
    assert_eq!(server.lookup(Method::GET, b"/a"), Some(&3));
    assert_eq!(server.lookup(Method::POST, b"/a"), Some(&2));
}

#[test]
fn get_post_and_add_method_register_under_their_methods() {
    let mut server: HttpServer<&str> = HttpServer::new(1);
    server.get("/x".to_string(), "get");
    server.post("/x".to_string(), "post");
    server.add_method(Method::DELETE, "/x".to_string(), "delete");
    server.add_method(Method::GET, "/y".to_string(), "other");
    assert_eq!(server.lookup(Method::GET, b"/x"), Some(&"get"));
    assert_eq!(server.lookup(Method::POST, b"/x"), Some(&"post"));
    assert_eq!(server.lookup(Method::DELETE, b"/x"), Some(&"delete"));
    assert_eq!(server.lookup(Method::GET, b"/y"), Some(&"other"));
    assert_eq!(server.lookup(Method::PUT, b"/x"), None);
}

#[test]
fn the_port_is_kept() {
    let mut server: HttpServer<u32> = HttpServer::new(5000);
    assert_eq!(server.port(), 5000);
    server.get("/".to_string(), 0);
    assert_eq!(server.port(), 5000);
}

#[test]
fn a_request_is_routed_by_method_and_target() {
    let mut server: HttpServer<u32> = HttpServer::new(8080);
    server.get("/hello".to_string(), 7);
    let hit = HTTPRequest::new(b"GET /hello HTTP/1.1\r\n\r\n").unwrap();
    let wrong_method = HTTPRequest::new(b"POST /hello HTTP/1.1\r\n\r\n").unwrap();
    let wrong_path = HTTPRequest::new(b"GET /hello/ HTTP/1.1\r\n\r\n").unwrap();
    assert_eq!(server.route(&hit), Some(&7));
    assert_eq!(server.route(&wrong_method), None);
    assert_eq!(server.route(&wrong_path), None);
}

#[test]
fn the_default_answer_where_nothing_is_registered() {
    let server: HttpServer<u32> = HttpServer::new(8080);
    assert_eq!(
        server.not_found(),
        b"HTTP/1.1 404 NOT FOUND\r\nContent-Length: 3\r\n\r\n404".to_vec()
    );
}

#[test]
fn an_answer_of_ones_own_where_nothing_is_registered() {
    let server: HttpServer<u32> = HttpServer::with_not_found_body(8080, "nothing here".to_string());
    assert_eq!(server.port(), 8080);
    assert_eq!(server.lookup(Method::GET, b"/"), None);
    assert_eq!(
        server.not_found(),
        b"HTTP/1.1 404 NOT FOUND\r\nContent-Length: 12\r\n\r\nnothing here".to_vec()
    );
}

#[test]
fn a_routing_table_of_its_own() {
    let mut table: RoutingTable<char> = RoutingTable::new();
    assert_eq!(table.lookup(Method::GET, b"/"), None);
    table.register(Method::GET, b"/".to_vec(), 'a');
    table.register(Method::HEAD, b"/".to_vec(), 'b');
    table.register(Method::GET, b"/".to_vec(), 'c');
    assert_eq!(table.lookup(Method::GET, b"/"), Some(&'c'));
    assert_eq!(table.lookup(Method::HEAD, b"/"), Some(&'b'));
    assert_eq!(table.lookup(Method::GET, b"//"), None);
}
