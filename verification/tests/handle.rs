use localhost::server::config::{plain_settings, Handler, Route, ServerConfig};
use localhost::server::handle::{
    failure, handle_connection, handle_resolved, replace_path_in_request, route_request,
    directory_path, serve_directory_contents, Next, Step,
};
use localhost::server::protocol::{Method, StatusCode};
use localhost::server::requests::get_request;

fn config<'a>(routes: Vec<Route<'a>>) -> ServerConfig<'a> {
    ServerConfig {
        host: "localhost",
        endpoints: vec![("127.0.0.1", 8080)],
        custom_error_path: None,
        body_size_limit: 1024,
        routes,
    }
}

fn value<'a>(headers: &'a Vec<(String, String)>, name: &str) -> Option<&'a str> {
    headers.iter().find(|h| h.0 == name).map(|h| h.1.as_str())
}

#[test]
fn replace_path_with_stripped_prefix() {
    let head = "GET /old_path HTTP/1.1\r\n".to_string();
    let path = "./old_path";
    let default_path = "/new_path";

    let result = replace_path_in_request(head, path, default_path);
    assert_eq!(result, "GET new_path HTTP/1.1\r\n");
}

#[test]
fn replace_path_without_stripped_prefix() {
    let head = "POST /old_path HTTP/1.1\r\n".to_string();
    let path = "/old_path";
    let default_path = "/new_path";

    let result = replace_path_in_request(head, path, default_path);
    assert_eq!(result, "POST new_path HTTP/1.1\r\n");
}

#[test]
fn replace_path_not_found() {
    let head = "PUT /another_path HTTP/1.1\r\n".to_string();
    let path = "/old_path";
    let default_path = "/new_path";

    let result = replace_path_in_request(head, path, default_path);
    assert_eq!(result, "PUT /another_path HTTP/1.1\r\n");
}

#[test]
fn replace_path_takes_the_first_occurrence_only() {
    let head = "GET /a HTTP/1.1\r\nReferer: /a".to_string();
    assert_eq!(replace_path_in_request(head, "/a", "./b"), "GET /b HTTP/1.1\r\nReferer: /a");
    assert_eq!(replace_path_in_request("x".to_string(), "x", ""), "");
}

#[test]
fn directory_listing_links_every_entry() {
    let entries = vec!["./assets/a.txt".to_string(), "./assets/sub".to_string()];
    let response = serve_directory_contents(&config(vec![]), "./assets/", Some(&entries)).unwrap();
    let body = String::from_utf8(response.body.clone()).unwrap();
    assert_eq!(
        body,
        "<html><body><ul><li><a href=\"/./assets/a.txt\">a.txt</a></li>\
         <li><a href=\"/./assets/sub\">sub</a></li></ul></body></html>"
    );
    assert_eq!(response.status, StatusCode { code: 200 });
    assert_eq!(value(&response.headers, "content-type"), Some("text/html"));
    assert_eq!(value(&response.headers, "host"), Some("localhost"));
    let length = body.len().to_string();
    assert_eq!(value(&response.headers, "content-length"), Some(length.as_str()));
}

#[test]
fn directory_listing_of_nothing() {
    let response = serve_directory_contents(&config(vec![]), "./assets", Some(&vec![])).unwrap();
    assert_eq!(response.body, b"<html><body><ul></ul></body></html>".to_vec());
}

#[test]
fn directory_that_cannot_be_read_is_not_found() {
    assert_eq!(
        serve_directory_contents(&config(vec![]), "./assets", None),
        Err(StatusCode { code: 404 })
    );
    assert_eq!(directory_path("./assets//"), "./assets");
    assert_eq!(directory_path("/"), "");
    assert_eq!(directory_path("a/b"), "a/b");
}

#[test]
fn missing_route_is_reported_as_not_found() {
    let conf = config(vec![]);
    let step = handle_connection(&conf, ("GET /missing HTTP/1.1".to_string(), vec![]));
    assert_eq!(step, Step::Fail { code: StatusCode { code: 404 }, allow: None });
    let response = failure(StatusCode { code: 404 }, None, &conf, None);
    assert_eq!(response.status, StatusCode { code: 404 });
    assert_eq!(response.body, b"404 Not Found".to_vec());
    assert_eq!(value(&response.headers, "content-type"), Some("text/html"));
    assert_eq!(value(&response.headers, "content-length"), Some("13"));
}

#[test]
fn configured_error_page_is_the_body() {
    let conf = config(vec![]);
    let response = failure(StatusCode { code: 404 }, None, &conf, Some(b"<h1>gone</h1>".to_vec()));
    assert_eq!(response.body, b"<h1>gone</h1>".to_vec());
    assert_eq!(value(&response.headers, "content-length"), Some("13"));
}

#[test]
fn method_that_is_not_allowed_is_reported_with_the_allowed_ones() {
    let conf = config(vec![Route {
        url_path: "/a",
        methods: vec![Method::Get, Method::Head],
        handler: None,
        settings: None,
    }]);
    let step = handle_connection(&conf, ("POST /a HTTP/1.1".to_string(), vec![]));
    match step {
        Step::Fail { code, allow } => {
            assert_eq!(code, StatusCode { code: 405 });
            assert_eq!(allow, Some("GET, HEAD".to_string()));
            let response = failure(code, allow, &conf, None);
            assert_eq!(response.status, StatusCode { code: 405 });
            assert_eq!(value(&response.headers, "allow"), Some("GET, HEAD"));
            assert_eq!(response.body, b"405 Method Not Allowed".to_vec());
        }
        _ => panic!("the method is not allowed"),
    }
}

#[test]
fn redirection_is_answered_with_the_location() {
    let mut settings = plain_settings();
    settings.http_redirections = Some(vec!["/redirection-test"]);
    settings.redirect_status_code = Some(StatusCode { code: 301 });
    let conf = config(vec![Route {
        url_path: "/test.txt",
        methods: vec![Method::Get],
        handler: None,
        settings: Some(settings),
    }]);
    let step = handle_connection(&conf, ("GET /redirection-test HTTP/1.1".to_string(), vec![]));
    match step {
        Step::Respond(response) => {
            assert_eq!(response.status, StatusCode { code: 301 });
            assert_eq!(value(&response.headers, "location"), Some("/test.txt"));
            assert_eq!(response.body, Vec::<u8>::new());
        }
        _ => panic!("the path is redirected"),
    }
}

#[test]
fn redirection_without_a_status_is_temporary() {
    let mut settings = plain_settings();
    settings.http_redirections = Some(vec!["/from"]);
    let conf = config(vec![Route {
        url_path: "/to",
        methods: vec![],
        handler: None,
        settings: Some(settings),
    }]);
    match handle_connection(&conf, ("GET /from HTTP/1.1".to_string(), vec![])) {
        Step::Respond(response) => assert_eq!(response.status, StatusCode { code: 307 }),
        _ => panic!("the path is redirected"),
    }
}

#[test]
fn unreadable_request_is_reported() {
    let conf = config(vec![]);
    let step = handle_connection(&conf, ("GET / HTTP/7.7".to_string(), vec![]));
    assert_eq!(step, Step::Fail { code: StatusCode { code: 505 }, allow: None });
    let step = route_request(&conf, Err(StatusCode { code: 413 }));
    assert_eq!(step, Step::Fail { code: StatusCode { code: 413 }, allow: None });
}

#[test]
fn route_with_a_handler_hands_the_request_over() {
    let conf = config(vec![Route {
        url_path: "/api",
        methods: vec![Method::Get],
        handler: Some(Handler::ValidateCookie),
        settings: None,
    }]);
    match handle_connection(&conf, ("GET /api HTTP/1.1".to_string(), vec![])) {
        Step::Handle { handler, request } => {
            assert_eq!(handler, Handler::ValidateCookie);
            assert_eq!(request.path, "/api");
        }
        _ => panic!("the route has a handler"),
    }
}

#[test]
fn route_without_a_handler_names_the_file() {
    let mut settings = plain_settings();
    settings.root_path = Some("/www");
    let conf = config(vec![Route {
        url_path: "/",
        methods: vec![Method::Get],
        handler: None,
        settings: Some(settings),
    }]);
    match handle_connection(&conf, ("GET /index.html HTTP/1.1".to_string(), vec![])) {
        Step::Inspect { request, route, path } => {
            assert_eq!(request.path, "/index.html");
            assert_eq!(route, 0);
            assert_eq!(path, "./www/index.html");
        }
        _ => panic!("the route names a file"),
    }
}

#[test]
fn directory_goes_to_its_default_file_once() {
    let mut settings = plain_settings();
    settings.default_if_url_is_dir = Some("index.html");
    settings.list_directory = true;
    let route = Route {
        url_path: "/docs",
        methods: vec![Method::Get],
        handler: None,
        settings: Some(settings),
    };
    let conf = config(vec![]);
    let head = "GET /docs/sub HTTP/1.1\r\nHost: x";
    let request = get_request(&conf, (head.to_string(), vec![])).unwrap();
    let next = handle_resolved(&route, &request, "./docs/sub", head, true, false);
    assert_eq!(next, Next::Reenter("GET /docs/index.html HTTP/1.1\r\nHost: x".to_string()));
    let next = handle_resolved(&route, &request, "./docs/sub", head, true, true);
    assert_eq!(next, Next::List("./docs/sub".to_string()));
}

#[test]
fn directory_without_default_is_listed_or_not_found() {
    let mut listed = plain_settings();
    listed.list_directory = true;
    let open = Route { url_path: "/a", methods: vec![], handler: None, settings: Some(listed) };
    let shut =
        Route { url_path: "/a", methods: vec![], handler: None, settings: Some(plain_settings()) };
    let bare = Route { url_path: "/a", methods: vec![], handler: None, settings: None };
    let conf = config(vec![]);
    let request = get_request(&conf, ("GET /a HTTP/1.1".to_string(), vec![])).unwrap();
    let head = "GET /a HTTP/1.1";
    assert_eq!(handle_resolved(&open, &request, "./a", head, true, false), Next::List("./a".to_string()));
    assert_eq!(
        handle_resolved(&shut, &request, "./a", head, true, false),
        Next::Fail(StatusCode { code: 404 })
    );
    assert_eq!(handle_resolved(&bare, &request, "./a", head, true, false), Next::Method);
}

#[test]
fn file_is_a_script_or_answered_by_the_method() {
    let bare = Route { url_path: "/", methods: vec![], handler: None, settings: None };
    let conf = config(vec![]);
    let request = get_request(&conf, ("GET /cgi/a.php HTTP/1.1".to_string(), vec![])).unwrap();
    let head = "GET /cgi/a.php HTTP/1.1";
    assert_eq!(handle_resolved(&bare, &request, "./cgi/a.php", head, false, false), Next::Script);
    assert_eq!(handle_resolved(&bare, &request, "./cgi.php", head, false, false), Next::Method);
}
