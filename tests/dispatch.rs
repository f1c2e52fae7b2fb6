use tinyweb::{normalize_method, AccessLog, Error, Next, Params, Server, Step, Terminal, NOT_FOUND_STATUS};

#[derive(Debug, Clone, PartialEq)]
enum Ev {
    Before(usize),
    Handler(Terminal),
    After(usize),
}

/// Runs a chain the way the server does: middleware `i` calls its
/// continuation when `proceeds[i]`.
fn run(next: Next, proceeds: &[bool], log: &mut Vec<Ev>) {
    match next.step() {
        Step::Middleware(i, rest) => {
            log.push(Ev::Before(i));
            if proceeds[i] {
                run(rest, proceeds, log);
            }
            log.push(Ev::After(i));
        }
        Step::Terminal(t) => log.push(Ev::Handler(t)),
    }
}

fn hello_server() -> Server<&'static str, &'static str> {
    let mut srv: Server<&'static str, &'static str> = Server::new();
    srv.middleware("access log");
    srv.get("/hello/:name", "hello");
    srv
}

#[test]
fn error_keeps_message() {
    let e = Error::new("server run error: bind");
    assert_eq!(e.message(), "server run error: bind");
}

#[test]
fn method_names_are_upper_cased() {
    assert_eq!(normalize_method("get"), "GET");
    assert_eq!(normalize_method("pAtCh"), "PATCH");
    assert_eq!(normalize_method("M-SEARCH"), "M-SEARCH");
    assert_eq!(normalize_method("ümlaut"), "ÜMLAUT");
    assert_eq!(normalize_method("poſt"), "POST");
}

#[test]
fn params_find_first_binding() {
    let p = Params::from_pairs(vec![
        ("id".to_string(), "7".to_string()),
        ("name".to_string(), "Ada".to_string()),
        ("id".to_string(), "8".to_string()),
    ]);
    assert_eq!(p.len(), 3);
    assert_eq!(p.find("name"), Some("Ada"));
    assert_eq!(p.find("id"), Some("7"));
    assert_eq!(p.find("missing"), None);
    assert_eq!(Params::new().find("id"), None);
}

#[test]
fn registered_route_resolves_with_params() {
    let srv = hello_server();
    let (h, params) = srv.resolve("GET", "/hello/Ada").unwrap();
    assert_eq!(*srv.handler(h), "hello");
    assert_eq!(params.find("name"), Some("Ada"));
    assert_eq!(params.len(), 1);
}

#[test]
fn unmatched_path_is_not_found() {
    let srv = hello_server();
    assert!(srv.resolve("GET", "/bye/Ada").is_none());
    assert!(srv.resolve("GET", "/hello").is_none());
    let (next, params) = srv.dispatch("GET", "/nowhere");
    assert_eq!(next.terminal(), Terminal::NotFound);
    assert_eq!(params.len(), 0);
    assert_eq!(NOT_FOUND_STATUS, 404);
}

#[test]
fn method_without_routes_is_not_found() {
    let srv = hello_server();
    assert!(srv.resolve("DELETE", "/hello/Ada").is_none());
    let empty: Server<&'static str, &'static str> = Server::default();
    assert!(empty.resolve("GET", "/").is_none());
}

#[test]
fn post_to_get_route_is_not_found() {
    let srv = hello_server();
    assert!(srv.resolve("POST", "/hello/Ada").is_none());
    let (next, params) = srv.dispatch("POST", "/hello/Ada");
    assert_eq!(next.terminal(), Terminal::NotFound);
    assert_eq!(params.len(), 0);
}

#[test]
fn method_lookup_ignores_case() {
    let mut srv: Server<&'static str, ()> = Server::new();
    srv.register("get", "/a", "lower");
    let (h, _) = srv.resolve("GET", "/a").unwrap();
    assert_eq!(*srv.handler(h), "lower");
    let (h, _) = srv.resolve("Get", "/a").unwrap();
    assert_eq!(*srv.handler(h), "lower");
    srv.register("poſt", "/p", "long s");
    let (h, _) = srv.resolve("POST", "/p").unwrap();
    assert_eq!(*srv.handler(h), "long s");
    srv.register("PUT", "/b", "upper");
    let (h, _) = srv.resolve("put", "/b").unwrap();
    assert_eq!(*srv.handler(h), "upper");
}

#[test]
fn path_lookup_keeps_case() {
    let srv = hello_server();
    assert!(srv.resolve("GET", "/Hello/Ada").is_none());
}

#[test]
fn disjoint_patterns_do_not_interfere() {
    let mut srv: Server<&'static str, ()> = Server::new();
    srv.get("/users/:id", "user");
    srv.get("/posts/:slug/comments", "comments");
    srv.get("/", "root");
    let (h, p) = srv.resolve("GET", "/users/42").unwrap();
    assert_eq!(*srv.handler(h), "user");
    assert_eq!(p.find("id"), Some("42"));
    let (h, p) = srv.resolve("GET", "/posts/intro/comments").unwrap();
    assert_eq!(*srv.handler(h), "comments");
    assert_eq!(p.find("slug"), Some("intro"));
    let (h, p) = srv.resolve("GET", "/").unwrap();
    assert_eq!(*srv.handler(h), "root");
    assert_eq!(p.len(), 0);
}

#[test]
fn verb_shorthands_register_under_their_method() {
    let mut srv: Server<&'static str, ()> = Server::new();
    srv.head("/x", "head");
    srv.post("/x", "post");
    srv.put("/x", "put");
    srv.delete("/x", "delete");
    srv.connect("/x", "connect");
    srv.options("/x", "options");
    srv.trace("/x", "trace");
    srv.patch("/x", "patch");
    srv.get("/x", "get");
    assert_eq!(srv.handler_count(), 9);
    for m in ["HEAD", "POST", "PUT", "DELETE", "CONNECT", "OPTIONS", "TRACE", "PATCH", "GET"] {
        let (h, _) = srv.resolve(m, "/x").unwrap();
        assert_eq!(*srv.handler(h), m.to_lowercase());
    }
}

#[test]
fn dispatch_builds_chain_over_all_middleware() {
    let mut srv: Server<&'static str, &'static str> = Server::new();
    srv.middleware("a");
    srv.middleware("b");
    srv.get("/hello/:name", "hello");
    assert_eq!(srv.middleware_count(), 2);
    assert_eq!(*srv.middleware_at(0), "a");
    assert_eq!(*srv.middleware_at(1), "b");
    let (next, params) = srv.dispatch("GET", "/hello/Ada");
    assert_eq!(next.terminal(), Terminal::Handler(0));
    assert_eq!(params.find("name"), Some("Ada"));
    let mut log = Vec::new();
    run(next, &[true, true], &mut log);
    assert_eq!(
        log,
        vec![Ev::Before(0), Ev::Before(1), Ev::Handler(Terminal::Handler(0)), Ev::After(1), Ev::After(0)]
    );
}

#[test]
fn middleware_nest_around_handler() {
    let next = Next::new(Terminal::Handler(5), 3);
    let mut log = Vec::new();
    run(next, &[true, true, true], &mut log);
    assert_eq!(
        log,
        vec![
            Ev::Before(0),
            Ev::Before(1),
            Ev::Before(2),
            Ev::Handler(Terminal::Handler(5)),
            Ev::After(2),
            Ev::After(1),
            Ev::After(0),
        ]
    );
}

#[test]
fn short_circuit_stops_the_chain() {
    let next = Next::new(Terminal::Handler(0), 3);
    let mut log = Vec::new();
    run(next, &[true, false, true], &mut log);
    assert_eq!(log, vec![Ev::Before(0), Ev::Before(1), Ev::After(1), Ev::After(0)]);
}

#[test]
fn empty_chain_runs_terminal_once() {
    let next = Next::new(Terminal::NotFound, 0);
    let mut log = Vec::new();
    run(next, &[], &mut log);
    assert_eq!(log, vec![Ev::Handler(Terminal::NotFound)]);
}

#[test]
fn cursor_steps_in_order() {
    let next = Next::new(Terminal::Handler(1), 2);
    let rest = match next.step() {
        Step::Middleware(0, rest) => rest,
        other => panic!("unexpected {:?}", other),
    };
    let rest = match rest.step() {
        Step::Middleware(1, rest) => rest,
        other => panic!("unexpected {:?}", other),
    };
    assert!(matches!(rest.step(), Step::Terminal(Terminal::Handler(1))));
}

#[test]
fn access_log_line_for_hello() {
    let srv = hello_server();
    let (next, params) = srv.dispatch("GET", "/hello/Ada");
    assert_eq!(next.terminal(), Terminal::Handler(0));
    let body = format!("Hello {}!", params.find("name").unwrap_or("world"));
    assert_eq!(body, "Hello Ada!");
    let line = AccessLog.line("GET", "/hello/Ada", "200", "127.0.0.1:5000", "3");
    assert_eq!(line, "GET \"/hello/Ada\" 200 127.0.0.1:5000 3ms");
    assert!(line.contains("GET") && line.contains("/hello/Ada") && line.contains("200"));
}

#[test]
fn access_log_escapes_path_like_debug() {
    let line = AccessLog.line("GET", "/a\"b\\c", "404", "10.0.0.1:80", "0");
    assert_eq!(line, "GET \"/a\\\"b\\\\c\" 404 10.0.0.1:80 0ms");
    assert_eq!(line, format!("{} {:?} {} {} {}ms", "GET", "/a\"b\\c", "404", "10.0.0.1:80", "0"));
}

#[test]
fn access_log_line_with_quoted_path() {
    let line = AccessLog.line_quoted("POST", "\"/x\"", "201", "[::1]:9", "12");
    assert_eq!(line, "POST \"/x\" 201 [::1]:9 12ms");
}

#[test]
fn duplicate_pattern_answers_with_last_handler() {
    let mut srv: Server<&'static str, ()> = Server::new();
    srv.get("/dup", "first");
    srv.get("/dup", "second");
    let (h, _) = srv.resolve("GET", "/dup").unwrap();
    assert_eq!(*srv.handler(h), "second");
}
