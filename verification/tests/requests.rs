use localhost::server::config::{plain_settings, Route, ServerConfig};
use localhost::server::protocol::{Method, StatusCode, Version};
use localhost::server::requests::{
    add_root_to_path, format_header, get_body, get_chunked_body, get_headers, get_line, get_path,
    get_request, get_split_index, get_version, is_chunked, parse_chunk_size, path_exists,
    split_once_str,
};

fn config<'a>(limit: usize) -> ServerConfig<'a> {
    ServerConfig {
        host: "localhost",
        endpoints: vec![("127.0.0.1", 8080)],
        custom_error_path: None,
        body_size_limit: limit,
        routes: vec![],
    }
}

fn route<'a>(path: &'a str) -> Route<'a> {
    Route { url_path: path, methods: vec![Method::Get], handler: None, settings: None }
}

#[test]
fn test_add_root_to_path() {
    let path = "/foo";
    let route = Route {
        url_path: path,
        methods: vec![],
        handler: None,
        settings: None,
    };
    let expected_path = "./foo".to_string();
    assert_eq!(add_root_to_path(&route, path), expected_path);
}

#[test]
fn add_root_to_path_puts_the_root_between() {
    let mut settings = plain_settings();
    settings.root_path = Some("/assets");
    let route = Route {
        url_path: "/foo",
        methods: vec![],
        handler: None,
        settings: Some(settings),
    };
    assert_eq!(add_root_to_path(&route, "/foo"), "./assets/foo");
}

#[test]
fn get_line_picks_the_line() {
    let head = "GET /a HTTP/1.1\r\nHost: x\r\n";
    assert_eq!(get_line(head, 0), "GET /a HTTP/1.1");
    assert_eq!(get_line(head, 1), "Host: x");
    assert_eq!(get_line(head, 2), "");
    assert_eq!(get_line(head, 9), "GET /a HTTP/1.1");
    assert_eq!(get_line("a\r\nb\0\0", 1), "b");
}

#[test]
fn get_split_index_picks_the_word() {
    assert_eq!(get_split_index("GET  /a\tHTTP/1.1", 1), "/a");
    assert_eq!(get_split_index("GET /a", 5), "GET");
    assert_eq!(get_split_index("   ", 0), "");
    assert_eq!(get_split_index("a\u{a0}b", 1), "b");
}

#[test]
fn get_path_is_the_second_word_of_the_first_line() {
    assert_eq!(get_path("GET /index.html HTTP/1.1\r\nHost: x\r\n"), "/index.html");
    assert_eq!(get_path("GET"), "GET");
    assert_eq!(get_path(""), "");
}

#[test]
fn get_headers_leaves_out_the_request_line_and_the_body() {
    let req = "GET / HTTP/1.1\r\nHost: x\r\nAccept: y\r\n\r\nbody\r\nmore";
    assert_eq!(get_headers(req), vec!["Host: x", "Accept: y"]);
    assert_eq!(get_headers("GET / HTTP/1.1\r\n\n\n"), Vec::<&str>::new());
}

#[test]
fn get_headers_keeps_a_line_that_names_a_version() {
    let req = "GET / HTTP/1.1\r\nVia: HTTP/1.1 p\r\nHost: x\r\n\r\nHTTP/ body";
    assert_eq!(get_headers(req), vec!["Via: HTTP/1.1 p", "Host: x"]);
    assert_eq!(get_headers("Host: x\r\nAccept: y"), vec!["Accept: y"]);
    let request = get_request(&config(100), (req.to_string(), vec![])).unwrap();
    assert_eq!(
        request.headers,
        vec![
            ("via".to_string(), "http/1.1 p".to_string()),
            ("host".to_string(), "x".to_string())
        ]
    );
}

#[test]
fn format_header_splits_at_the_first_separator() {
    assert_eq!(format_header("Host: x"), Some(("Host", "x")));
    assert_eq!(format_header("Date: a: b  \0\0"), Some(("Date", "a: b")));
    assert_eq!(format_header("nothing"), None);
    assert_eq!(format_header("Key:value"), None);
}

#[test]
fn get_version_maps_the_known_versions() {
    assert_eq!(get_version("GET / HTTP/0.9"), Ok(Version::Http09));
    assert_eq!(get_version("GET / HTTP/1.0"), Ok(Version::Http10));
    assert_eq!(get_version("GET / HTTP/1.1\r\nHost: x"), Ok(Version::Http11));
    assert_eq!(get_version("GET / HTTP/2.0"), Ok(Version::H2));
    assert_eq!(get_version("GET / HTTP/3.0"), Ok(Version::H3));
    assert_eq!(get_version("GET / HTTP/9.9"), Err(StatusCode { code: 505 }));
    assert_eq!(get_version("GET /"), Err(StatusCode { code: 400 }));
}

#[test]
fn get_version_reads_the_third_word_of_the_first_line() {
    assert_eq!(get_version("GET /HTTP/docs HTTP/1.1"), Ok(Version::Http11));
    assert_eq!(get_version("HTTP/1.0 /a HTTP/2.0"), Ok(Version::H2));
    assert_eq!(get_version("GET  /a\tHTTP/1.0  more"), Ok(Version::Http10));
    assert_eq!(get_version("GET / x\r\nVia: HTTP/1.1 p"), Err(StatusCode { code: 505 }));
    assert_eq!(get_version("GET /HTTP/1.1 1.1"), Err(StatusCode { code: 505 }));
    assert_eq!(get_version("GET /\r\nUpgrade: HTTP/1.1"), Err(StatusCode { code: 400 }));
    assert_eq!(get_version(""), Err(StatusCode { code: 400 }));
    let head = "GET /HTTP/docs HTTP/1.1".to_string();
    let request = get_request(&config(100), (head, vec![])).unwrap();
    assert_eq!(request.version, Version::Http11);
    assert_eq!(request.path, "/HTTP/docs");
}

#[test]
fn is_chunked_reads_the_first_transfer_encoding() {
    let chunked = vec![("transfer-encoding".to_string(), "chunked".to_string())];
    let other = vec![("transfer-encoding".to_string(), "gzip".to_string())];
    assert!(is_chunked(Some(&chunked)));
    assert!(!is_chunked(Some(&other)));
    assert!(!is_chunked(Some(&vec![])));
    assert!(!is_chunked(None));
}

#[test]
fn get_body_holds_the_length_against_the_limit() {
    assert_eq!(get_body(vec![1, 2, 3], 3), Ok(vec![1, 2, 3]));
    assert_eq!(get_body(vec![1, 2, 3], 2), Err(StatusCode { code: 413 }));
}

#[test]
fn split_once_str_splits_at_the_first_pair() {
    let data = b"ab\r\ncd\r\n";
    let (head, rest) = split_once_str(data, b'\r', b'\n').unwrap();
    assert_eq!(head, b"ab");
    assert_eq!(rest, b"cd\r\n");
    assert_eq!(split_once_str(b"abc\r", b'\r', b'\n'), None);
}

#[test]
fn parse_chunk_size_reads_hexadecimal() {
    assert_eq!(parse_chunk_size(b"1a"), Some(26));
    assert_eq!(parse_chunk_size(b" +FF\t"), Some(255));
    assert_eq!(parse_chunk_size(b"0"), Some(0));
    assert_eq!(parse_chunk_size(b""), None);
    assert_eq!(parse_chunk_size(b"5;ext"), None);
    assert_eq!(parse_chunk_size(b"fffffffffffffffffffffffffffffffff"), None);
}

#[test]
fn chunked_body_is_decoded() {
    let data = b"5\r\nhello\r\n6\r\n world\r\n0\r\n\r\n".to_vec();
    assert_eq!(get_chunked_body(data, 100), Ok(b"hello world".to_vec()));
}

#[test]
fn chunked_body_round_trip() {
    let body = b"some bytes \r\n with a line break".to_vec();
    let mut data = format!("{:x}\r\n", body.len()).into_bytes();
    data.extend_from_slice(&body);
    data.extend_from_slice(b"\r\n0\r\n\r\n");
    assert_eq!(get_chunked_body(data.clone(), body.len()), Ok(body.clone()));
    assert_eq!(get_chunked_body(data, body.len() - 1), Err(StatusCode { code: 413 }));
}

#[test]
fn chunked_body_that_is_malformed_is_a_bad_request() {
    assert_eq!(get_chunked_body(b"zz\r\nabc\r\n".to_vec(), 100), Err(StatusCode { code: 400 }));
    assert_eq!(get_chunked_body(b"5\r\nhel".to_vec(), 100), Err(StatusCode { code: 400 }));
    assert_eq!(get_chunked_body(b"5".to_vec(), 100), Err(StatusCode { code: 400 }));
    assert_eq!(get_chunked_body(b"".to_vec(), 100), Ok(vec![]));
}

#[test]
fn chunk_without_a_line_break_after_it_is_a_bad_request() {
    let data = b"5\r\nhelloXX0\r\n\r\n".to_vec();
    assert_eq!(get_chunked_body(data, 100), Err(StatusCode { code: 400 }));
    let data = b"5\r\nhello\n\r0\r\n\r\n".to_vec();
    assert_eq!(get_chunked_body(data, 100), Err(StatusCode { code: 400 }));
    let data = b"5\r\nhelloXX0\r\n\r\n".to_vec();
    assert_eq!(get_chunked_body(data, 3), Err(StatusCode { code: 400 }));
    let data = b"5\r\nhello\r\n0\r\n\r\n".to_vec();
    assert_eq!(get_chunked_body(data, 3), Err(StatusCode { code: 413 }));
}

#[test]
fn fields_beyond_the_room_of_the_header_map_are_a_bad_request() {
    let mut head = "GET / HTTP/1.1".to_string();
    for i in 0..30000 {
        head.push_str(&format!("\r\nx-{}: v", i));
    }
    assert_eq!(get_request(&config(100), (head, vec![])), Err(StatusCode { code: 400 }));
    let mut head = "GET / HTTP/1.1".to_string();
    for i in 0..200 {
        head.push_str(&format!("\r\nx-{}: v", i));
    }
    let request = get_request(&config(100), (head, vec![])).unwrap();
    assert_eq!(request.headers.len(), 200);
    assert_eq!(request.headers[199], ("x-199".to_string(), "v".to_string()));
}

#[test]
fn path_exists_prefers_exact_then_redirect_then_longest_prefix() {
    let mut redirecting = plain_settings();
    redirecting.http_redirections = Some(vec!["/old"]);
    let routes = vec![
        route("/a"),
        Route {
            url_path: "/new",
            methods: vec![Method::Get],
            handler: None,
            settings: Some(redirecting),
        },
        route("/a/b"),
        route("/old"),
    ];
    assert_eq!(path_exists("/a/b/c", &routes), Some((2, "/a/b")));
    assert_eq!(path_exists("/a", &routes), Some((0, "/a")));
    assert_eq!(path_exists("/old", &routes), Some((3, "/old")));
    assert_eq!(path_exists("/none", &routes), None);
    assert_eq!(path_exists("/old", &routes[..3]), Some((1, "/new")));
}

#[test]
fn longest_prefix_ties_go_to_the_earliest_route() {
    let routes = vec![route("/a"), route("/a")];
    assert_eq!(path_exists("/a/x", &routes), Some((0, "/a")));
}

#[test]
fn request_with_content_length_has_exactly_that_many_bytes() {
    let head = "POST /assets/a.txt HTTP/1.1\r\nContent-Length: 3".to_string();
    let request = get_request(&config(100), (head, b"abcdef".to_vec())).unwrap();
    assert_eq!(request.body, b"abc".to_vec());
    assert_eq!(request.method, Method::Post);
    assert_eq!(request.path, "/assets/a.txt");
    assert_eq!(request.version, Version::Http11);
}

#[test]
fn request_without_content_length_has_no_body() {
    let head = "GET / HTTP/1.1\r\nHost: x".to_string();
    let request = get_request(&config(100), (head, b"abc".to_vec())).unwrap();
    assert_eq!(request.body, Vec::<u8>::new());
}

#[test]
fn request_body_errors() {
    let short = "POST / HTTP/1.1\r\nContent-Length: 5".to_string();
    assert_eq!(get_request(&config(100), (short, b"abc".to_vec())), Err(StatusCode { code: 400 }));
    let large = "POST / HTTP/1.1\r\nContent-Length: 5".to_string();
    assert_eq!(get_request(&config(4), (large, b"abcde".to_vec())), Err(StatusCode { code: 413 }));
    let odd = "POST / HTTP/1.1\r\nContent-Length: five".to_string();
    assert_eq!(get_request(&config(100), (odd, b"abcde".to_vec())), Err(StatusCode { code: 400 }));
}

#[test]
fn request_headers_are_in_lower_case() {
    let head = "GET / HTTP/1.1\r\nHoSt: ExAmple\r\nACCEPT: Text/Html".to_string();
    let twin = "GET / HTTP/1.1\r\nhost: ExAmple\r\nAccept: Text/Html".to_string();
    let request = get_request(&config(100), (head, vec![])).unwrap();
    let other = get_request(&config(100), (twin, vec![])).unwrap();
    assert_eq!(
        request.headers,
        vec![
            ("host".to_string(), "example".to_string()),
            ("accept".to_string(), "text/html".to_string()),
        ]
    );
    assert_eq!(request.headers, other.headers);
}

#[test]
fn request_with_a_refused_header_is_a_bad_request() {
    let name = "GET / HTTP/1.1\r\nBad Name: x".to_string();
    assert_eq!(get_request(&config(100), (name, vec![])), Err(StatusCode { code: 400 }));
    let value = "GET / HTTP/1.1\r\nX: a\u{7f}b".to_string();
    assert_eq!(get_request(&config(100), (value, vec![])), Err(StatusCode { code: 400 }));
    let fine = "GET / HTTP/1.1\r\nX: a\tb \u{e9}".to_string();
    assert!(get_request(&config(100), (fine, vec![])).is_ok());
}

#[test]
fn request_target_is_taken_apart() {
    let head = "GET /a/b?x=1&y=2 HTTP/1.1".to_string();
    let request = get_request(&config(100), (head, vec![])).unwrap();
    assert_eq!(request.uri, "/a/b?x=1&y=2");
    assert_eq!(request.path, "/a/b");
    assert_eq!(request.query, Some("x=1&y=2".to_string()));
    assert_eq!(request.port, None);
    let full = "GET http://example.org:8081/z HTTP/1.1".to_string();
    let request = get_request(&config(100), (full, vec![])).unwrap();
    assert_eq!(request.path, "/z");
    assert_eq!(request.port, Some(8081));
    let bad = "GET /a\u{7f} HTTP/1.1".to_string();
    assert_eq!(get_request(&config(100), (bad, vec![])), Err(StatusCode { code: 400 }));
}

#[test]
fn request_errors_come_in_order() {
    let version = "G@T / HTTP/7".to_string();
    assert_eq!(get_request(&config(100), (version, vec![])), Err(StatusCode { code: 505 }));
    let method = "G@T / HTTP/1.1".to_string();
    assert_eq!(get_request(&config(100), (method, vec![])), Err(StatusCode { code: 400 }));
    let large = "GET / HTTP/1.1\r\nBad Name: x".to_string();
    assert_eq!(get_request(&config(2), (large, b"abc".to_vec())), Err(StatusCode { code: 413 }));
}

#[test]
fn chunked_request_is_decoded() {
    let head = "POST /assets/b.txt HTTP/1.1\r\nTransfer-Encoding: Chunked".to_string();
    let request = get_request(&config(100), (head, b"5\r\nhello\r\n0\r\n\r\n".to_vec())).unwrap();
    assert_eq!(request.body, b"hello".to_vec());
}
