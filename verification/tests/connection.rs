use localhost::server::connection::{
    scan_chunks, serve_response, written, Connection, Frame, Phase, Progress, WriteEvent,
    WriteStep,
};
use localhost::server::config::ServerConfig;
use localhost::server::protocol::{Response, StatusCode, Version};
use localhost::server::requests::get_request;

#[test]
fn request_without_body_is_ready_at_the_empty_line() {
    let mut connection = Connection::new();
    assert_eq!(connection.received(b"GET /index.html HT", 100), Progress::NeedMore);
    assert_eq!(connection.request_parts(), Err(StatusCode { code: 400 }));
    assert_eq!(connection.received(b"TP/1.1\r\nHost: x\r\n\r\n", 100), Progress::Ready);
    assert_eq!(
        connection.request_parts(),
        Ok(("GET /index.html HTTP/1.1\r\nHost: x".to_string(), vec![]))
    );
    assert_eq!(connection.phase, Phase::Reading);
}

#[test]
fn body_is_awaited_up_to_its_declared_length() {
    let mut connection = Connection::new();
    let head = b"POST /a HTTP/1.1\r\nContent-Length: 5\r\n\r\nhe";
    assert_eq!(connection.received(head, 100), Progress::NeedMore);
    assert_eq!(connection.received(b"ll", 100), Progress::NeedMore);
    assert_eq!(connection.received(b"o", 100), Progress::Ready);
    let (_, body) = connection.request_parts().unwrap();
    assert_eq!(body, b"hello".to_vec());
}

#[test]
fn body_above_the_limit_is_not_awaited() {
    let mut connection = Connection::new();
    let head = b"POST /a HTTP/1.1\r\nContent-Length: 500\r\n\r\n";
    assert_eq!(connection.received(head, 100), Progress::Ready);
    let mut connection = Connection::new();
    let head = b"POST /a HTTP/1.1\r\nContent-Length: x\r\n\r\n";
    assert_eq!(connection.received(head, 100), Progress::Ready);
}

#[test]
fn chunked_body_is_awaited_up_to_its_last_chunk() {
    let mut connection = Connection::new();
    let head = b"POST /a HTTP/1.1\r\nTransfer-Encoding: chunked\r\n\r\n5\r\nhel";
    assert_eq!(connection.received(head, 100), Progress::NeedMore);
    assert_eq!(connection.received(b"lo\r\n", 100), Progress::NeedMore);
    assert_eq!(connection.received(b"0\r\n\r\n", 100), Progress::Ready);
    assert_eq!(scan_chunks(b"5\r\nhello\r\n0\r\n"), Frame::Complete);
    assert_eq!(scan_chunks(b"5\r\nhello\r\n"), Frame::Incomplete);
    assert_eq!(scan_chunks(b"x\r\n"), Frame::Malformed);
    assert_eq!(scan_chunks(b"5\r\nhelloXX0\r\n\r\n"), Frame::Malformed);
    assert_eq!(scan_chunks(b"5\r\nhello\r"), Frame::Incomplete);
    assert_eq!(scan_chunks(b"5\r\nhello\rX"), Frame::Malformed);
    assert_eq!(scan_chunks(b""), Frame::Incomplete);
}

#[test]
fn chunk_that_no_line_break_follows_is_not_awaited() {
    let mut connection = Connection::new();
    let head = b"POST /a HTTP/1.1\r\nTransfer-Encoding: chunked\r\n\r\n5\r\nhello";
    assert_eq!(connection.received(head, 100), Progress::NeedMore);
    assert_eq!(connection.received(b"XX", 100), Progress::Ready);
    let (head, body) = connection.request_parts().unwrap();
    assert_eq!(body, b"5\r\nhelloXX".to_vec());
    let conf = ServerConfig {
        host: "localhost",
        endpoints: vec![("127.0.0.1", 8080)],
        custom_error_path: None,
        body_size_limit: 100,
        routes: vec![],
    };
    assert_eq!(get_request(&conf, (head, body)), Err(StatusCode { code: 400 }));
}

#[test]
fn head_beyond_the_cap_is_a_bad_request() {
    let mut connection = Connection::new();
    let long = vec![b'a'; 65537];
    assert_eq!(
        connection.received(&long, 100),
        Progress::Failed(StatusCode { code: 400 })
    );
    assert_eq!(connection.phase, Phase::Closed);
    let mut connection = Connection::new();
    assert_eq!(
        connection.received(b"GET /\xff HTTP/1.1\r\n\r\n", 100),
        Progress::Failed(StatusCode { code: 400 })
    );
}

#[test]
fn response_is_written_from_the_cursor_on() {
    let mut connection = Connection::new();
    let response = Response {
        status: StatusCode { code: 200 },
        version: Version::Http11,
        headers: vec![("content-length".to_string(), "2".to_string())],
        body: b"hi".to_vec(),
    };
    serve_response(&mut connection, &response);
    let all = b"HTTP/1.1 200 OK\r\ncontent-length: 2\r\n\r\nhi".to_vec();
    assert_eq!(connection.phase, Phase::Writing);
    assert_eq!(connection.remaining(), &all[..]);
    assert_eq!(written(&mut connection, WriteEvent::Wrote(10)), WriteStep::Again);
    assert_eq!(connection.remaining(), &all[10..]);
    assert_eq!(written(&mut connection, WriteEvent::WouldBlock), WriteStep::Again);
    assert_eq!(connection.cursor, 10);
    assert_eq!(written(&mut connection, WriteEvent::Wrote(all.len() - 10)), WriteStep::Flush);
    assert_eq!(connection.remaining(), b"");
    assert_eq!(connection.phase, Phase::Closed);
}

#[test]
fn write_that_fails_or_takes_nothing_ends_the_connection() {
    let response = Response {
        status: StatusCode { code: 204 },
        version: Version::Http10,
        headers: vec![],
        body: vec![],
    };
    let mut connection = Connection::new();
    serve_response(&mut connection, &response);
    assert_eq!(connection.pending, b"HTTP/1.0 204 No Content\r\n\r\n".to_vec());
    assert_eq!(written(&mut connection, WriteEvent::Failed), WriteStep::Abort);
    assert_eq!(connection.phase, Phase::Closed);
    let mut connection = Connection::new();
    serve_response(&mut connection, &response);
    assert_eq!(written(&mut connection, WriteEvent::Wrote(0)), WriteStep::Flush);
    let mut connection = Connection::new();
    serve_response(&mut connection, &response);
    assert_eq!(written(&mut connection, WriteEvent::Wrote(usize::MAX)), WriteStep::Flush);
    assert_eq!(connection.cursor, connection.pending.len());
}
