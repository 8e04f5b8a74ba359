use localhost::server::config::{server_config, Handler, ServerConfig};
use localhost::server::protocol::{
    find_header, Builder, Method, Request, Response, StatusCode, Version,
};
use localhost::server::requests::get_request;
use localhost::server::responses::{
    content_type, error, error_page_path, format_response, format_with_reason, redirect,
};
use localhost::server::sessions::{
    cookie, cookie_demo, demo_page, get_cookie, remove_cookie, run_handler, set_cookie,
    update_cookie, validate_cookie,
};

fn config<'a>() -> ServerConfig<'a> {
    ServerConfig {
        host: "localhost",
        endpoints: vec![("127.0.0.1", 8080)],
        custom_error_path: Some("./errors"),
        body_size_limit: 1024,
        routes: vec![],
    }
}

fn request(head: &str) -> Request {
    get_request(&config(), (head.to_string(), vec![])).unwrap()
}

fn pair(name: &str, value: &str) -> (String, String) {
    (name.to_string(), value.to_string())
}

#[test]
fn content_type_goes_by_the_extension() {
    assert_eq!(content_type("./index.html"), "text/html");
    assert_eq!(content_type("./a/b.HTM"), "text/html");
    assert_eq!(content_type("./style.css"), "text/css");
    assert_eq!(content_type("./app.js"), "text/javascript");
    assert_eq!(content_type("./data.json"), "application/json");
    assert_eq!(content_type("./notes.txt"), "text/plain");
    assert_eq!(content_type("./feed.xml"), "application/xml");
    assert_eq!(content_type("./p.png"), "image/png");
    assert_eq!(content_type("./p.jpg"), "image/jpeg");
    assert_eq!(content_type("./p.jpeg"), "image/jpeg");
    assert_eq!(content_type("./p.gif"), "image/gif");
    assert_eq!(content_type("./p.svg"), "image/svg+xml");
    assert_eq!(content_type("./favicon.ico"), "image/x-icon");
    assert_eq!(content_type("./doc.pdf"), "application/pdf");
    assert_eq!(content_type("./archive.tar.gz"), "application/octet-stream");
    assert_eq!(content_type("./dir.html/file"), "application/octet-stream");
    assert_eq!(content_type(""), "application/octet-stream");
}

#[test]
fn response_is_written_with_status_line_fields_and_body() {
    let response = Response {
        status: StatusCode { code: 404 },
        version: Version::Http11,
        headers: vec![pair("content-type", "text/html"), pair("content-length", "3")],
        body: vec![1, 2, 3],
    };
    let mut expected =
        b"HTTP/1.1 404 Not Found\r\ncontent-type: text/html\r\ncontent-length: 3\r\n\r\n".to_vec();
    expected.extend_from_slice(&[1, 2, 3]);
    assert_eq!(format_response(&response), expected);
    let odd = Response {
        status: StatusCode { code: 299 },
        version: Version::H2,
        headers: vec![],
        body: vec![],
    };
    assert_eq!(format_response(&odd), b"HTTP/2.0 299 \r\n\r\n".to_vec());
    assert_eq!(format_with_reason(&odd, "Fine"), b"HTTP/2.0 299 Fine\r\n\r\n".to_vec());
}

#[test]
fn error_response_has_the_page_or_the_plain_report() {
    let conf = config();
    assert_eq!(
        error_page_path(StatusCode { code: 404 }, &conf),
        Some("./errors/404.html".to_string())
    );
    let mut none = config();
    none.custom_error_path = None;
    assert_eq!(error_page_path(StatusCode { code: 404 }, &none), None);
    let plain = error(StatusCode { code: 500 }, &conf, None);
    assert_eq!(plain.status, StatusCode { code: 500 });
    assert_eq!(plain.body, b"500 Internal Server Error".to_vec());
    assert_eq!(
        plain.headers,
        vec![pair("content-type", "text/html"), pair("content-length", "25")]
    );
    let paged = error(StatusCode { code: 500 }, &conf, Some(b"<p>oops</p>".to_vec()));
    assert_eq!(paged.body, b"<p>oops</p>".to_vec());
    assert_eq!(find_header(&paged.headers, "content-length"), Some(&"11".to_string()));
}

#[test]
fn redirect_carries_the_location() {
    let response =
        redirect(StatusCode { code: 308 }, &config(), Version::Http10, "/there".to_string());
    assert_eq!(response.status, StatusCode { code: 308 });
    assert_eq!(response.version, Version::Http10);
    assert_eq!(response.headers, vec![pair("location", "/there"), pair("content-length", "0")]);
    assert!(StatusCode { code: 308 }.is_redirection());
    assert!(!StatusCode { code: 400 }.is_redirection());
    assert!(!StatusCode { code: 299 }.is_redirection());
}

#[test]
fn builder_fails_on_a_refused_value() {
    let mut builder = Builder::new(Version::Http11);
    builder.header("a", "fine");
    builder.header("b", "not\rfine");
    builder.header("c", "fine again");
    assert_eq!(builder.body(vec![]), Err(StatusCode { code: 500 }));
    let mut builder = Builder::new(Version::Http11);
    builder.header("a", "fine");
    let response = builder.body(vec![7]).unwrap();
    assert_eq!(response.headers, vec![pair("a", "fine")]);
    assert_eq!(response.body, vec![7]);
}

#[test]
fn builder_fails_on_a_refused_name() {
    let mut builder = Builder::new(Version::Http11);
    builder.header("a", "fine");
    builder.header("bad name", "fine");
    assert_eq!(builder.body(vec![]), Err(StatusCode { code: 500 }));
    let mut builder = Builder::new(Version::Http11);
    builder.header("", "fine");
    assert_eq!(builder.body(vec![]), Err(StatusCode { code: 500 }));
    let mut builder = Builder::new(Version::Http11);
    builder.header("n\u{e9}", "fine");
    assert_eq!(builder.body(vec![]), Err(StatusCode { code: 500 }));
    let mut builder = Builder::new(Version::Http11);
    builder.header("x-token_1", "fine");
    assert!(builder.body(vec![]).is_ok());
}

#[test]
fn methods_have_their_tokens() {
    assert_eq!(Method::from_token("GET"), Method::Get);
    assert_eq!(Method::from_token("PATCH").as_str(), "PATCH");
    assert_eq!(Method::from_token("QUERY"), Method::Extension("QUERY".to_string()));
    assert!(Method::Options.same(&Method::Options));
    assert!(!Method::Options.same(&Method::Connect));
    assert!(Method::Extension("A".to_string()).same(&Method::Extension("A".to_string()).duplicate()));
    assert_eq!(Version::H3.as_str(), "HTTP/3.0");
}

#[test]
fn cookie_fields() {
    let builder = set_cookie(Builder::new(Version::Http11), "session=cookie");
    assert_eq!(builder.headers, vec![pair("set-cookie", "session=cookie; path=/; Max-Age=3600")]);
    let builder = remove_cookie(Builder::new(Version::Http11), "session=cookie");
    assert_eq!(
        builder.headers,
        vec![pair("set-cookie", "session=cookie; path=/; expires=Thu, 01 Jan 1970 00:00:00 GMT")]
    );
    let builder = cookie(Builder::new(Version::Http11), "a=b");
    assert_eq!(builder.headers, vec![pair("cookie", "a=b")]);
}

#[test]
fn session_cookie_is_set_then_removed() {
    let conf = config();
    let fresh = request("POST /api/update-cookie HTTP/1.1\r\nHost: x");
    let response = update_cookie(&fresh, &conf).unwrap();
    assert_eq!(response.status, StatusCode { code: 200 });
    assert_eq!(
        response.headers,
        vec![pair("set-cookie", "session=cookie; path=/; Max-Age=3600"), pair("host", "localhost")]
    );
    let known = request("POST /api/update-cookie HTTP/1.1\r\nCookie: Session=Cookie");
    let response = update_cookie(&known, &conf).unwrap();
    assert_eq!(
        find_header(&response.headers, "set-cookie"),
        Some(&"session=cookie; path=/; expires=Thu, 01 Jan 1970 00:00:00 GMT".to_string())
    );
}

#[test]
fn session_cookie_is_validated() {
    let conf = config();
    let without = request("GET /api/get-cookie HTTP/1.1\r\nCookie: other=1");
    assert_eq!(get_cookie(&without, "session=cookie"), None);
    assert_eq!(validate_cookie(&without, &conf), Err(StatusCode { code: 401 }));
    let with = request("GET /api/get-cookie HTTP/1.1\r\nCookie: other=1\r\nCookie: session=cookie");
    assert_eq!(get_cookie(&with, "session=cookie"), Some(&"session=cookie".to_string()));
    let response = run_handler(Handler::ValidateCookie, &with, &conf, None).unwrap();
    assert_eq!(response.headers, vec![pair("cookie", "session=cookie"), pair("host", "localhost")]);
}

#[test]
fn cookie_demo_shows_its_page() {
    let conf = config();
    let req = request("GET /api/cookie-demo HTTP/1.1");
    assert_eq!(demo_page(), "./assets/cookie-demo.html");
    assert_eq!(cookie_demo(&req, &conf, None), Err(StatusCode { code: 404 }));
    let response = run_handler(Handler::CookieDemo, &req, &conf, Some(b"<p>".to_vec())).unwrap();
    assert_eq!(response.body, b"<p>".to_vec());
    assert_eq!(find_header(&response.headers, "content-type"), Some(&"text/html".to_string()));
}

#[test]
fn default_configuration() {
    let configs = server_config();
    assert_eq!(configs.len(), 1);
    let conf = &configs[0];
    assert_eq!(conf.host, "127.0.0.1");
    assert_eq!(conf.endpoints, vec![("127.0.0.1", 8080), ("127.0.0.1", 8081)]);
    assert_eq!(conf.custom_error_path, None);
    assert_eq!(conf.routes.len(), 8);
    assert_eq!(conf.routes[0].handler, Some(Handler::UpdateCookie));
    assert_eq!(conf.routes[0].methods, vec![Method::Post]);
    assert_eq!(conf.routes[4].url_path, "/test.txt");
    let moved = conf.routes[4].settings.as_ref().unwrap();
    assert_eq!(moved.http_redirections, Some(vec!["/redirection-test"]));
    assert_eq!(moved.redirect_status_code, Some(StatusCode { code: 301 }));
    assert_eq!(moved.root_path, Some("/assets"));
    let scripts = conf.routes[3].settings.as_ref().unwrap();
    assert_eq!(scripts.cgi_def.as_ref().unwrap().len(), 2);
    assert!(scripts.list_directory);
    assert_eq!(conf.routes[7].methods.len(), 5);
    let req = get_request(conf, ("GET /redirection-test HTTP/1.1".to_string(), vec![])).unwrap();
    assert_eq!(req.path, "/redirection-test");
}
