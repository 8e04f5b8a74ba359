use localhost::server::config::{plain_settings, Route, ServerConfig};
use localhost::server::effects::{
    post_name, post_next, post_start, retry, settle, Effect, Fact, Need, PostStep,
};
use localhost::server::methods::{
    allowed_methods, delete, file_need, get, get_method, handle_method, head,
    method_is_allowed, options, patch, post, put, resolve, trace, unsafe_response,
};
use localhost::server::protocol::{Method, Request, StatusCode, Version};
use localhost::server::requests::get_request;
use localhost::server::routes::get_route;

fn assets<'a>() -> ServerConfig<'a> {
    let mut settings = plain_settings();
    settings.list_directory = true;
    ServerConfig {
        host: "localhost",
        endpoints: vec![("127.0.0.1", 8080)],
        custom_error_path: None,
        body_size_limit: 1024,
        routes: vec![
            Route {
                url_path: "/",
                methods: vec![Method::Get, Method::Head, Method::Options, Method::Trace],
                handler: None,
                settings: None,
            },
            Route {
                url_path: "/assets",
                methods: vec![
                    Method::Get,
                    Method::Post,
                    Method::Put,
                    Method::Patch,
                    Method::Delete,
                    Method::Extension("BREW".to_string()),
                ],
                handler: None,
                settings: Some(settings),
            },
        ],
    }
}

fn request(config: &ServerConfig, head: &str, body: &[u8]) -> Request {
    get_request(config, (head.to_string(), body.to_vec())).unwrap()
}

fn value<'a>(headers: &'a Vec<(String, String)>, name: &str) -> Option<&'a str> {
    headers.iter().find(|h| h.0 == name).map(|h| h.1.as_str())
}

#[test]
fn get_method_reads_the_first_word() {
    assert_eq!(get_method("GET /path2 HTTP/1.1"), Ok(Method::Get));
    assert_eq!(get_method("DELETE / HTTP/1.1\r\nHost: x"), Ok(Method::Delete));
    assert_eq!(get_method("get / HTTP/1.1"), Ok(Method::Extension("get".to_string())));
    assert_eq!(get_method("G@T / HTTP/1.1"), Err(StatusCode { code: 400 }));
    assert_eq!(get_method(""), Err(StatusCode { code: 400 }));
}

#[test]
fn method_is_allowed_where_the_route_lists_it() {
    let conf = assets();
    assert!(method_is_allowed(&Method::Put, &conf.routes[1]));
    assert!(method_is_allowed(&Method::Extension("BREW".to_string()), &conf.routes[1]));
    assert!(!method_is_allowed(&Method::Extension("STIR".to_string()), &conf.routes[1]));
    assert!(!method_is_allowed(&Method::Put, &conf.routes[0]));
    assert_eq!(allowed_methods(&conf.routes[0]), "GET, HEAD, OPTIONS, TRACE");
}

#[test]
fn get_route_picks_the_longest_prefix() {
    let conf = ServerConfig {
        host: "x",
        endpoints: vec![],
        custom_error_path: None,
        body_size_limit: 10,
        routes: vec![
            Route { url_path: "/a", methods: vec![Method::Get], handler: None, settings: None },
            Route { url_path: "/a/b", methods: vec![Method::Get], handler: None, settings: None },
        ],
    };
    let req = request(&conf, "GET /a/b/c HTTP/1.1", b"");
    assert_eq!(get_route(&req, &conf).unwrap().url_path, "/a/b");
    let req = request(&conf, "POST /a/b/c HTTP/1.1", b"");
    assert_eq!(
        get_route(&req, &conf).err(),
        Some((StatusCode { code: 405 }, "GET".to_string()))
    );
    let req = request(&conf, "GET /b HTTP/1.1", b"");
    assert_eq!(get_route(&req, &conf).err(), Some((StatusCode { code: 404 }, String::new())));
}

#[test]
fn get_sends_the_file() {
    let conf = assets();
    let req = request(&conf, "GET /index.html HTTP/1.1\r\nHost: x", b"");
    assert_eq!(resolve(&req, &conf), Ok((0, "./index.html".to_string())));
    assert_eq!(file_need(&req, &conf), Ok(Need::Contents("./index.html".to_string())));
    let outcome =
        handle_method(&conf.routes[0], &req, &conf, Fact::Contents(Some(b"hi".to_vec()))).unwrap();
    assert_eq!(outcome.effect, Effect::Nothing);
    assert_eq!(outcome.response.status, StatusCode { code: 200 });
    assert_eq!(outcome.response.version, Version::Http11);
    assert_eq!(outcome.response.body, b"hi".to_vec());
    assert_eq!(
        outcome.response.headers,
        vec![
            ("host".to_string(), "localhost".to_string()),
            ("content-type".to_string(), "text/html".to_string()),
            ("content-length".to_string(), "2".to_string()),
        ]
    );
}

#[test]
fn get_of_a_missing_file_is_not_found() {
    let conf = assets();
    let req = request(&conf, "GET /none HTTP/1.1", b"");
    assert_eq!(get(&req, &conf, None), Err(StatusCode { code: 404 }));
    let req = request(&conf, "PUT /none HTTP/1.1", b"");
    assert_eq!(get(&req, &conf, Some(vec![])), Err(StatusCode { code: 405 }));
}

#[test]
fn get_repeats_the_transfer_encoding() {
    let conf = assets();
    let req = request(&conf, "GET /a HTTP/1.0\r\nTransfer-Encoding: gzip\r\nX: y", b"");
    let response = get(&req, &conf, Some(b"abc".to_vec())).unwrap();
    assert_eq!(response.version, Version::Http10);
    assert_eq!(value(&response.headers, "transfer-encoding"), Some("gzip"));
    assert_eq!(value(&response.headers, "content-type"), Some("application/octet-stream"));
    assert_eq!(value(&response.headers, "x"), None);
}

#[test]
fn head_sends_the_length_only() {
    let conf = assets();
    let req = request(&conf, "HEAD /a.css HTTP/1.1", b"");
    assert_eq!(file_need(&req, &conf), Ok(Need::Length("./a.css".to_string())));
    let response = head(&req, &conf, Some(1234)).unwrap();
    assert_eq!(response.body, Vec::<u8>::new());
    assert_eq!(value(&response.headers, "content-length"), Some("1234"));
    assert_eq!(value(&response.headers, "content-type"), Some("text/css"));
    assert_eq!(head(&req, &conf, None), Err(StatusCode { code: 500 }));
}

#[test]
fn options_lists_the_methods_of_the_route() {
    let conf = assets();
    let req = request(&conf, "OPTIONS /x HTTP/1.1", b"");
    assert_eq!(file_need(&req, &conf), Ok(Need::Nothing));
    let response = options(&conf.routes[0], &req, &conf).unwrap();
    assert_eq!(response.status, StatusCode { code: 200 });
    assert_eq!(value(&response.headers, "allow"), Some("GET, HEAD, OPTIONS, TRACE"));
    assert_eq!(value(&response.headers, "content-length"), Some("0"));
    assert_eq!(value(&response.headers, "host"), Some("localhost"));
    assert_eq!(response.body, Vec::<u8>::new());
}

#[test]
fn trace_repeats_the_request_without_what_is_sensitive() {
    let conf = assets();
    let head = "TRACE /x?y=1 HTTP/1.1\r\nHost: h\r\nCookie: secret=1\r\nAuthorization: Basic abc\r\nX-Id: 7";
    let req = request(&conf, head, b"");
    let response = trace(&req, &conf).unwrap();
    let body = String::from_utf8(response.body.clone()).unwrap();
    assert_eq!(body, "TRACE /x?y=1 HTTP/1.1\r\nhost: h\r\nx-id: 7");
    assert!(!body.contains("secret"));
    assert!(!body.contains("basic"));
    assert_eq!(value(&response.headers, "content-type"), Some("message/http"));
    assert_eq!(value(&response.headers, "via"), Some("localhost"));
    let length = body.len().to_string();
    assert_eq!(value(&response.headers, "content-length"), Some(length.as_str()));
}

#[test]
fn trace_adds_the_host_to_via() {
    let conf = assets();
    let req = request(&conf, "TRACE / HTTP/1.1\r\nVia: 1.1 Proxy\r\nMax-Forwards: 3", b"");
    let response = trace(&req, &conf).unwrap();
    assert_eq!(value(&response.headers, "via"), Some("1.1 proxy, localhost"));
}

#[test]
fn trace_that_may_not_be_forwarded_is_a_bad_request() {
    let conf = assets();
    for zero in ["0", "+0", "-000"] {
        let head = format!("TRACE / HTTP/1.1\r\nMax-Forwards: {}", zero);
        let req = request(&conf, &head, b"");
        assert_eq!(trace(&req, &conf), Err(StatusCode { code: 400 }));
    }
    let req = request(&conf, "TRACE / HTTP/1.1\r\nMax-Forwards: 0x", b"");
    assert!(trace(&req, &conf).is_ok());
}

#[test]
fn post_names_go_up_from_zero() {
    assert_eq!(post_name("./assets/foo.txt", 0), "./assets/foo.txt");
    assert_eq!(post_name("./assets/foo.txt", 1), "./assets/foo(0).txt");
    assert_eq!(post_name("./assets/foo.txt", 2), "./assets/foo(1).txt");
    assert_eq!(post_name("./assets/foo.txt", 12), "./assets/foo(11).txt");
    assert_eq!(post_name("./assets/foo", 1), "./assets/foo(0)");
    assert_eq!(post_name("./a.b/foo", 1), "./a.b/foo(0)");
    assert_eq!(post_name("./a.tar.gz", 1), "./a.tar(0).gz");
}

#[test]
fn repeated_posts_never_write_to_a_name_that_exists() {
    let path = "./assets/foo.txt";
    let mut existing = vec![path.to_string()];
    let mut written = Vec::new();
    for _ in 0..4 {
        let mut step = post_start(path);
        let name = loop {
            match step {
                PostStep::Probe { attempt, name } => {
                    step = post_next(path, attempt, existing.contains(&name));
                }
                PostStep::Write { name } => break name,
                PostStep::GiveUp => panic!("a name is free"),
            }
        };
        assert!(!existing.contains(&name));
        existing.push(name.clone());
        written.push(name);
    }
    assert_eq!(
        written,
        vec![
            "./assets/foo(0).txt",
            "./assets/foo(1).txt",
            "./assets/foo(2).txt",
            "./assets/foo(3).txt",
        ]
    );
    assert_eq!(post_next(path, u64::MAX, true), PostStep::GiveUp);
}

#[test]
fn post_creates_the_file_and_then_a_numbered_one() {
    let conf = assets();
    let head = "POST /assets/a.txt HTTP/1.1\r\nContent-Length: 3";
    let req = request(&conf, head, b"abc");
    assert_eq!(file_need(&req, &conf), Ok(Need::FreeName("./assets/a.txt".to_string())));
    let first = match post_next("./assets/a.txt", 0, false) {
        PostStep::Write { name } => name,
        _ => panic!("the name is free"),
    };
    assert_eq!(
        handle_method(&conf.routes[1], &req, &conf, Fact::FreeName(None)),
        Err(StatusCode { code: 500 })
    );
    let outcome =
        handle_method(&conf.routes[1], &req, &conf, Fact::FreeName(Some(first))).unwrap();
    assert_eq!(
        outcome.effect,
        Effect::Write { path: "./assets/a.txt".to_string(), body: b"abc".to_vec() }
    );
    assert_eq!(outcome.response.status, StatusCode { code: 200 });
    assert_eq!(outcome.response.body, b"abc".to_vec());
    assert_eq!(outcome.failure, StatusCode { code: 500 });
    assert_eq!(
        post_next("./assets/a.txt", 0, true),
        PostStep::Probe { attempt: 1, name: "./assets/a(0).txt".to_string() }
    );
    let second = match post_next("./assets/a.txt", 1, false) {
        PostStep::Write { name } => name,
        _ => panic!("the name is free"),
    };
    let outcome = post(&req, &conf, second).unwrap();
    assert_eq!(
        outcome.effect,
        Effect::Write { path: "./assets/a(0).txt".to_string(), body: b"abc".to_vec() }
    );
    assert_eq!(value(&outcome.response.headers, "content-type"), Some("text/plain"));
}

#[test]
fn chunked_post_writes_the_decoded_body() {
    let conf = assets();
    let head = "POST /assets/b.txt HTTP/1.1\r\nTransfer-Encoding: chunked";
    let req = request(&conf, head, b"5\r\nhello\r\n0\r\n\r\n");
    let outcome = post(&req, &conf, "./assets/b.txt".to_string()).unwrap();
    assert_eq!(
        outcome.effect,
        Effect::Write { path: "./assets/b.txt".to_string(), body: b"hello".to_vec() }
    );
    assert_eq!(outcome.response.status, StatusCode { code: 200 });
}

#[test]
fn put_writes_the_file() {
    let conf = assets();
    let req = request(&conf, "PUT /assets/p.json HTTP/1.1\r\nContent-Length: 2", b"{}");
    assert_eq!(file_need(&req, &conf), Ok(Need::Nothing));
    let outcome = put(&req, &conf).unwrap();
    assert_eq!(
        outcome.effect,
        Effect::Write { path: "./assets/p.json".to_string(), body: b"{}".to_vec() }
    );
    assert_eq!(value(&outcome.response.headers, "content-type"), Some("application/json"));
    assert_eq!(value(&outcome.response.headers, "content-length"), Some("2"));
    assert_eq!(value(&outcome.response.headers, "host"), Some("localhost"));
}

#[test]
fn patch_needs_the_file_to_exist() {
    let conf = assets();
    let req = request(&conf, "PATCH /assets/p.txt HTTP/1.1\r\nContent-Length: 1", b"x");
    assert_eq!(file_need(&req, &conf), Ok(Need::Existence("./assets/p.txt".to_string())));
    assert_eq!(patch(&req, &conf, false), Err(StatusCode { code: 404 }));
    let outcome = patch(&req, &conf, true).unwrap();
    assert_eq!(
        outcome.effect,
        Effect::Write { path: "./assets/p.txt".to_string(), body: b"x".to_vec() }
    );
}

#[test]
fn delete_removes_the_file_and_sends_what_it_held() {
    let conf = assets();
    let req = request(&conf, "DELETE /assets/d.txt HTTP/1.1", b"");
    assert_eq!(file_need(&req, &conf), Ok(Need::Contents("./assets/d.txt".to_string())));
    assert_eq!(delete(&req, &conf, None), Err(StatusCode { code: 404 }));
    let outcome = delete(&req, &conf, Some(b"old".to_vec())).unwrap();
    assert_eq!(outcome.effect, Effect::RemoveFile { path: "./assets/d.txt".to_string() });
    assert_eq!(outcome.response.body, b"old".to_vec());
    assert_eq!(outcome.failure, StatusCode { code: 500 });
    assert_eq!(
        retry(&outcome.effect),
        Some(Effect::RemoveTree { path: "./assets/d.txt".to_string() })
    );
    assert_eq!(retry(&Effect::Nothing), None);
}

#[test]
fn method_that_is_not_implemented() {
    let conf = assets();
    let req = request(&conf, "BREW /assets/pot HTTP/1.1", b"");
    assert_eq!(file_need(&req, &conf), Ok(Need::Nothing));
    assert_eq!(
        handle_method(&conf.routes[1], &req, &conf, Fact::Nothing),
        Err(StatusCode { code: 501 })
    );
}

#[test]
fn fact_of_the_wrong_kind_is_a_server_error() {
    let conf = assets();
    let req = request(&conf, "GET /a HTTP/1.1", b"");
    assert_eq!(
        handle_method(&conf.routes[0], &req, &conf, Fact::Existence(true)),
        Err(StatusCode { code: 500 })
    );
}

#[test]
fn response_with_a_refused_host_cannot_be_built() {
    let mut conf = assets();
    conf.host = "bad\nhost";
    assert_eq!(unsafe_response(&conf, "./a", vec![]), Err(StatusCode { code: 500 }));
}

#[test]
fn outcome_is_settled_by_what_came_of_its_effect() {
    let conf = assets();
    let req = request(&conf, "PUT /assets/a.txt HTTP/1.1\r\nContent-Length: 2", b"hi");
    let outcome = handle_method(&conf.routes[1], &req, &conf, Fact::Nothing).unwrap();
    let response = settle(outcome, true).unwrap();
    assert_eq!(response.status, StatusCode { code: 200 });
    assert_eq!(response.body, b"hi".to_vec());
    let outcome = handle_method(&conf.routes[1], &req, &conf, Fact::Nothing).unwrap();
    assert_eq!(settle(outcome, false), Err(StatusCode { code: 500 }));
}

#[test]
fn post_steps_end_on_the_first_free_name() {
    let taken = ["./assets/a.txt", "./assets/a(0).txt", "./assets/a(1).txt"];
    let mut step = post_start("./assets/a.txt");
    let mut probes = 0;
    let name = loop {
        match step {
            PostStep::Probe { attempt, name } => {
                probes += 1;
                step = post_next("./assets/a.txt", attempt, taken.contains(&name.as_str()));
            }
            PostStep::Write { name } => break Some(name),
            PostStep::GiveUp => break None,
        }
    };
    assert_eq!(name, Some("./assets/a(2).txt".to_string()));
    assert_eq!(probes, 4);
    assert_eq!(post_next("./assets/a.txt", u64::MAX, true), PostStep::GiveUp);
}
