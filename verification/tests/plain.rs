use localhost::config::Config;
use localhost::server::{answer_file, answer_script, missing_page, plan_request, Plan};
use localhost::utils::{create_response, parse_request};
use std::collections::HashMap;

fn pair(name: &str, value: &str) -> (String, String) {
    (name.to_string(), value.to_string())
}

#[test]
fn parse_request_reads_method_path_headers_and_body() {
    let (method, path, headers, body) =
        parse_request("GET /x HTTP/1.1\r\nHost: a\r\nX-Id :  1 \r\nnone\r\n\r\nthe body");
    assert_eq!(method, "GET");
    assert_eq!(path, "/x");
    assert_eq!(headers, vec![pair("Host", "a"), pair("X-Id", "1")]);
    assert_eq!(body, "the body");
}

#[test]
fn parse_request_takes_as_body_what_follows_the_first_empty_line() {
    let (method, path, headers, body) = parse_request("POST /a HTTP/1.1\r\nhost: x\r\n\r\nabc");
    assert_eq!((method.as_str(), path.as_str()), ("POST", "/a"));
    assert_eq!(headers, vec![pair("host", "x")]);
    assert_eq!(body, "abc");
    let (_, _, _, body) = parse_request("GET /\nA: 1\n\na\r\nb\n\nc\n");
    assert_eq!(body, "a\nb\n\nc");
    let (_, _, headers, body) = parse_request("GET /\nA: 1\nB: 2");
    assert_eq!(headers, vec![pair("A", "1"), pair("B", "2")]);
    assert_eq!(body, "");
}

#[test]
fn parse_request_keeps_the_last_value_of_a_header() {
    let (_, _, headers, body) = parse_request("GET /\nA: 1\nB: 2\nA: 3\n\nC: 4");
    assert_eq!(headers, vec![pair("A", "3"), pair("B", "2")]);
    assert_eq!(body, "C: 4");
}

#[test]
fn parse_request_of_little() {
    assert_eq!(parse_request(""), (String::new(), String::new(), vec![], String::new()));
    let (method, path, headers, body) = parse_request("GET\r");
    assert_eq!((method.as_str(), path.as_str()), ("GET", ""));
    assert_eq!(headers, vec![]);
    assert_eq!(body, "");
    let (_, _, _, body) = parse_request("GET /\n\n");
    assert_eq!(body, "");
    let (_, _, _, body) = parse_request("GET /\n\nx\r");
    assert_eq!(body, "x\r");
}

#[test]
fn create_response_counts_the_bytes_of_the_body() {
    assert_eq!(
        create_response(200, "OK", "hi".to_string()),
        "HTTP/1.1 200 OK\r\nContent-Length: 2\r\n\r\nhi"
    );
    assert_eq!(
        create_response(404, "Not Found", "\u{e9}t\u{e9}".to_string()),
        "HTTP/1.1 404 Not Found\r\nContent-Length: 5\r\n\r\n\u{e9}t\u{e9}"
    );
    assert_eq!(create_response(0, "", String::new()), "HTTP/1.1 0 \r\nContent-Length: 0\r\n\r\n");
}

#[test]
fn plan_tells_scripts_from_files() {
    assert_eq!(plan_request("/a/b.php"), Plan::Script("/a/b.php".to_string()));
    assert_eq!(plan_request("/index.html"), Plan::File("./static/index.html".to_string()));
    assert_eq!(plan_request("php"), Plan::File("./staticphp".to_string()));
    assert_eq!(plan_request(".php"), Plan::Script(".php".to_string()));
}

#[test]
fn answers_of_the_plain_server() {
    assert_eq!(missing_page(), "./static/errors/404.html");
    assert_eq!(
        answer_file(Some("abc".to_string()), "gone".to_string()),
        "HTTP/1.1 200 OK\r\nContent-Length: 3\r\n\r\nabc"
    );
    assert_eq!(
        answer_file(None, "gone".to_string()),
        "HTTP/1.1 404 Not Found\r\nContent-Length: 4\r\n\r\ngone"
    );
    assert_eq!(
        answer_script("out".to_string()),
        "HTTP/1.1 200 OK\r\nContent-Length: 3\r\n\r\nout"
    );
}

#[test]
fn bind_address_is_host_and_first_port() {
    let mut config = Config {
        host: "127.0.0.1".to_string(),
        ports: vec![8080, 8081],
        error_pages: HashMap::new(),
        routes: HashMap::new(),
    };
    assert_eq!(config.bind_address(), Some("127.0.0.1:8080".to_string()));
    config.ports = vec![];
    assert_eq!(config.bind_address(), None);
}
