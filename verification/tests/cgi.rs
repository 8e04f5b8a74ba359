use localhost::server::cgi::{
    add_env_variables, add_http_variables, contains_path_info, execute_cgi_script, extension_of,
    is_cgi_request, prepare_cgi_script, script_of, Cgi,
};
use localhost::server::config::{plain_settings, Route, ServerConfig};
use localhost::server::protocol::{Method, Request, StatusCode};
use localhost::server::requests::get_request;

fn scripts<'a>(defs: Option<Vec<(&'a str, Cgi)>>) -> ServerConfig<'a> {
    let mut settings = plain_settings();
    settings.cgi_def = defs;
    ServerConfig {
        host: "localhost",
        endpoints: vec![("127.0.0.1", 8080)],
        custom_error_path: None,
        body_size_limit: 1024,
        routes: vec![
            Route {
                url_path: "/cgi",
                methods: vec![Method::Get, Method::Post],
                handler: None,
                settings: Some(settings),
            },
            Route { url_path: "/bare", methods: vec![Method::Get], handler: None, settings: None },
        ],
    }
}

fn request(config: &ServerConfig, head: &str, body: &[u8]) -> Request {
    get_request(config, (head.to_string(), body.to_vec())).unwrap()
}

fn pair(name: &str, value: &str) -> (String, String) {
    (name.to_string(), value.to_string())
}

#[test]
fn path_with_the_segment_names_a_script() {
    assert!(is_cgi_request("./cgi/script.php"));
    assert!(!is_cgi_request("./cgi"));
    assert!(!is_cgi_request("./index.html"));
}

#[test]
fn path_info_takes_exactly_two_parts() {
    assert!(contains_path_info(vec!["/cgi/a.", "/more"]));
    assert!(!contains_path_info(vec!["/cgi/a."]));
    assert!(!contains_path_info(vec!["a", "b", "c"]));
}

#[test]
fn extension_is_the_run_of_letters_and_digits() {
    assert_eq!(extension_of("./cgi/script.php"), "php");
    assert_eq!(extension_of("./cgi/script.py/more/path"), "py");
    assert_eq!(extension_of("./cgi/script.p\u{e9}1-x"), "p\u{e9}1");
    assert_eq!(extension_of("./cgi/script.php  "), "php");
    assert_eq!(script_of("./cgi/script.py/more.py", "py"), "./cgi/script.py");
    assert_eq!(script_of("./cgi/none", "py"), "./cgi/none.py");
}

#[test]
fn script_is_run_and_its_output_is_the_body() {
    let conf = scripts(Some(vec![("php", Cgi::PHP), ("py", Cgi::Python)]));
    let head = "POST /cgi/script.php HTTP/1.1\r\nContent-Length: 5";
    let req = request(&conf, head, b"hello");
    let command = prepare_cgi_script(&req, &conf).unwrap();
    assert_eq!(command.program, "php");
    assert_eq!(command.arguments, vec!["./cgi/script.php".to_string(), "hello".to_string()]);
    assert!(command.environment.contains(&pair("REQUEST_METHOD", "POST")));
    assert!(command.environment.contains(&pair("CONTENT_LENGTH", "5")));
    let response = execute_cgi_script(&req, &conf, Some(b"ok".to_vec())).unwrap();
    assert_eq!(response.status, StatusCode { code: 200 });
    assert_eq!(response.body, b"ok".to_vec());
    assert_eq!(
        response.headers,
        vec![
            pair("host", "localhost"),
            pair("content-type", "text/html"),
            pair("content-length", "2"),
        ]
    );
    assert_eq!(execute_cgi_script(&req, &conf, None), Err(StatusCode { code: 500 }));
}

#[test]
fn python_scripts_run_under_python() {
    let conf = scripts(Some(vec![("php", Cgi::PHP), ("py", Cgi::Python)]));
    let req = request(&conf, "GET /cgi/a.py/extra/info?q=1 HTTP/1.1\r\nAccept: */*", b"");
    let command = prepare_cgi_script(&req, &conf).unwrap();
    assert_eq!(command.program, "python3");
    assert_eq!(command.arguments, vec!["./cgi/a.py".to_string(), String::new()]);
    assert_eq!(
        command.environment,
        vec![
            pair("HTTP_ACCEPT", "*/*"),
            pair("QUERY_STRING", "q=1"),
            pair("REQUEST_METHOD", "GET"),
            pair("SERVER_NAME", "localhost"),
            pair("SERVER_SOFTWARE", "Rust v1.74.0"),
            pair("PATH_INFO", "/extra/info"),
        ]
    );
}

#[test]
fn script_errors() {
    let conf = scripts(Some(vec![("php", Cgi::PHP)]));
    let req = request(&conf, "GET /cgi/a.rb HTTP/1.1", b"");
    assert_eq!(prepare_cgi_script(&req, &conf), Err(StatusCode { code: 404 }));
    let req = request(&conf, "POST /cgi/a.php HTTP/1.1\r\nContent-Length: 2", &[0xff, 0xfe]);
    assert_eq!(prepare_cgi_script(&req, &conf), Err(StatusCode { code: 400 }));
    let req = request(&conf, "PUT /cgi/a.php HTTP/1.1", b"");
    assert_eq!(prepare_cgi_script(&req, &conf), Err(StatusCode { code: 405 }));
    let req = request(&conf, "GET /bare/cgi/a.php HTTP/1.1", b"");
    assert_eq!(prepare_cgi_script(&req, &conf), Err(StatusCode { code: 400 }));
    let none = scripts(None);
    let req = request(&none, "GET /cgi/a.php HTTP/1.1", b"");
    assert_eq!(prepare_cgi_script(&req, &none), Err(StatusCode { code: 400 }));
    assert_eq!(execute_cgi_script(&req, &none, Some(vec![])), Err(StatusCode { code: 400 }));
}

#[test]
fn headers_become_variables() {
    let headers = vec![
        pair("host", "h"),
        pair("cookie", "a=b"),
        pair("x-other", "1"),
        pair("user-agent", ""),
        pair("accept-language", "fr\u{e9}"),
        pair("content-type", "text/plain"),
        pair("host", "second"),
    ];
    assert_eq!(
        add_http_variables(&headers),
        vec![
            pair("HTTP_HOST", "h"),
            pair("COOKIE", "a=b"),
            pair("CONTENT_TYPE", "text/plain"),
            pair("HTTP_HOST", "second"),
        ]
    );
}

#[test]
fn environment_names_the_request() {
    let conf = scripts(None);
    let req = request(&conf, "GET http://h:81/cgi/a.php HTTP/1.1", b"");
    assert_eq!(
        add_env_variables(&req, &conf, "php"),
        vec![
            pair("REQUEST_METHOD", "GET"),
            pair("SERVER_NAME", "localhost"),
            pair("SERVER_PORT", "81"),
            pair("SERVER_SOFTWARE", "Rust v1.74.0"),
            pair("PATH_INFO", ""),
        ]
    );
    assert_eq!(add_env_variables(&req, &conf, "").len(), 4);
}
