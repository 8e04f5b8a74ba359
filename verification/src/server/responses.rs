//! Responses: the type of their content, how they are written on the wire,
//! and the responses that redirect and that report an error.

use crate::server::config::ServerConfig;
use crate::server::protocol::{
    canonical_reason, contents_of, reason_phrase, Fields, Response, ResponseView, StatusCode,
    Version,
};
use crate::text::{
    chars_of, decimal, decimal_string, lowered, push_decimal, push_str, rfind, rfind_char,
    string_of, to_lower,
};
use vstd::prelude::*;
use vstd::slice::slice_subrange;
use vstd::utf8::encode_utf8;

verus! {

/// The last segment of a path: what follows its last slash.
pub open spec fn file_name(path: Seq<char>) -> Seq<char> {
    match rfind_char(path, '/', path.len() as int) {
        Some(i) => path.skip(i + 1),
        None => path,
    }
}

/// The extension of a path: what follows the last dot of its last segment;
/// empty where that segment holds no dot.
pub open spec fn extension(path: Seq<char>) -> Seq<char> {
    let name = file_name(path);
    match rfind_char(name, '.', name.len() as int) {
        Some(i) => name.skip(i + 1),
        None => Seq::empty(),
    }
}

/// The media type of an extension in lower case.
pub open spec fn media_type(ext: Seq<char>) -> Seq<char> {
    if ext == "html"@ || ext == "htm"@ {
        "text/html"@
    } else if ext == "css"@ {
        "text/css"@
    } else if ext == "js"@ {
        "text/javascript"@
    } else if ext == "json"@ {
        "application/json"@
    } else if ext == "txt"@ {
        "text/plain"@
    } else if ext == "xml"@ {
        "application/xml"@
    } else if ext == "png"@ {
        "image/png"@
    } else if ext == "jpg"@ || ext == "jpeg"@ {
        "image/jpeg"@
    } else if ext == "gif"@ {
        "image/gif"@
    } else if ext == "svg"@ {
        "image/svg+xml"@
    } else if ext == "ico"@ {
        "image/x-icon"@
    } else if ext == "pdf"@ {
        "application/pdf"@
    } else {
        "application/octet-stream"@
    }
}

/// The media type of a file, by the extension of its path, whatever the case
/// of its letters.
pub open spec fn content_type_of(path: Seq<char>) -> Seq<char> {
    media_type(to_lower(extension(path)))
}

/// The media type of a file, by the extension of its path.
pub fn content_type(path: &str) -> (r: &'static str)
    ensures
        r@ == content_type_of(path@),
{
    let chars = chars_of(path);
    let start: usize = match rfind(chars.as_slice(), '/', chars.len()) {
        Some(i) => i + 1,
        None => 0,
    };
    let name = slice_subrange(chars.as_slice(), start, chars.len());
    assert(name@ == file_name(path@));
    let dot: usize = match rfind(name, '.', name.len()) {
        Some(i) => i + 1,
        None => name.len(),
    };
    let ext = slice_subrange(name, dot, name.len());
    assert(ext@ == extension(path@));
    let low = lowered(ext);
    let is = |word: &str| -> (b: bool)
        ensures
            b == (low@ == word@),
        { crate::text::chars_equal(low.as_slice(), chars_of(word).as_slice()) };
    if is("html") || is("htm") {
        "text/html"
    } else if is("css") {
        "text/css"
    } else if is("js") {
        "text/javascript"
    } else if is("json") {
        "application/json"
    } else if is("txt") {
        "text/plain"
    } else if is("xml") {
        "application/xml"
    } else if is("png") {
        "image/png"
    } else if is("jpg") || is("jpeg") {
        "image/jpeg"
    } else if is("gif") {
        "image/gif"
    } else if is("svg") {
        "image/svg+xml"
    } else if is("ico") {
        "image/x-icon"
    } else if is("pdf") {
        "application/pdf"
    } else {
        "application/octet-stream"
    }
}

/// The first line of a response.
pub open spec fn status_line(version: Version, code: u16, reason: Seq<char>) -> Seq<char> {
    version.text() + " "@ + decimal(code as nat) + " "@ + reason + "\r\n"@
}

/// The lines of the fields: for each a name, a colon and a space, the value,
/// a line break.
pub open spec fn field_lines(fields: Fields) -> Seq<char>
    decreases fields.len(),
{
    if fields.len() == 0 {
        Seq::empty()
    } else {
        field_lines(fields.drop_last()) + fields.last().0 + ": "@ + fields.last().1 + "\r\n"@
    }
}

/// The head of a response: its first line, its fields, an empty line.
pub open spec fn head_text(response: ResponseView, reason: Seq<char>) -> Seq<char> {
    status_line(response.version, response.status.code, reason) + field_lines(response.headers)
        + "\r\n"@
}

/// A response on the wire: its head in UTF-8, then its body.
pub open spec fn wire(response: ResponseView, reason: Seq<char>) -> Seq<u8> {
    encode_utf8(head_text(response, reason)) + response.body
}

/// The reason that stands in the first line for a status: its reason phrase,
/// or nothing where it has none.
pub open spec fn reason_text(phrase: Option<Seq<char>>) -> Seq<char> {
    match phrase {
        Some(text) => text,
        None => Seq::empty(),
    }
}

/// Writes a response with a given reason.
pub fn format_with_reason(response: &Response, reason: &str) -> (bytes: Vec<u8>)
    ensures
        bytes@ == wire(response@, reason@),
{
    let mut head: Vec<char> = Vec::new();
    push_str(&mut head, response.version.as_str());
    push_str(&mut head, " ");
    push_decimal(&mut head, response.status.code as u64);
    push_str(&mut head, " ");
    push_str(&mut head, reason);
    push_str(&mut head, "\r\n");
    assert(head@ == status_line(response.version, response.status.code, reason@));
    let ghost first = head@;
    let ghost fields = response.headers.deep_view();
    let mut i: usize = 0;
    while i < response.headers.len()
        invariant
            i <= response.headers.len(),
            fields == response.headers.deep_view(),
            head@ == first + field_lines(fields.take(i as int)),
        decreases response.headers.len() - i,
    {
        let ghost before = head@;
        push_str(&mut head, response.headers[i].0.as_str());
        push_str(&mut head, ": ");
        push_str(&mut head, response.headers[i].1.as_str());
        push_str(&mut head, "\r\n");
        proof {
            let now = fields.take(i + 1);
            assert(now.drop_last() == fields.take(i as int));
            assert(now.last() == fields[i as int]);
            assert(head@ == first + field_lines(now));
        }
        i += 1;
    }
    proof {
        assert(fields.take(response.headers.len() as int) == fields);
    }
    push_str(&mut head, "\r\n");
    assert(head@ == head_text(response@, reason@));
    let text = string_of(head.as_slice());
    let mut bytes: Vec<u8> = Vec::new();
    bytes.extend_from_slice(text.as_str().as_bytes());
    bytes.extend_from_slice(response.body.as_slice());
    bytes
}

/// Writes a response: the reason in its first line is the reason phrase of
/// its status.
pub fn format_response(response: &Response) -> (bytes: Vec<u8>)
    ensures
        bytes@ == wire(response@, reason_text(reason_phrase(response@.status.code))),
{
    match canonical_reason(response.status.code) {
        Some(reason) => format_with_reason(response, reason.as_str()),
        None => {
            let none = "";
            proof {
                reveal_strlit("");
                assert(none@ == Seq::<char>::empty());
            }
            format_with_reason(response, none)
        },
    }
}

/// A response that redirects to a path.
pub open spec fn redirection(code: StatusCode, version: Version, path: Seq<char>) -> ResponseView {
    ResponseView {
        status: code,
        version,
        headers: seq![("location"@, path), ("content-length"@, "0"@)],
        body: Seq::empty(),
    }
}

/// The response that redirects to `path` with status `code`.
pub fn redirect(code: StatusCode, config: &ServerConfig, version: Version, path: String) -> (r:
    Response)
    ensures
        r@ == redirection(code, version, path@),
{
    let mut headers: Vec<(String, String)> = Vec::new();
    headers.push((String::from_str("location"), path));
    headers.push((String::from_str("content-length"), String::from_str("0")));
    let r = Response { status: code, version, headers, body: Vec::new() };
    assert(r@.headers == seq![("location"@, path@), ("content-length"@, "0"@)]);
    r
}

/// The file that holds the page for a status: under the directory of error
/// pages, the status code and `.html`.
pub open spec fn page_path(config: ServerConfig, code: StatusCode) -> Option<Seq<char>> {
    match config.custom_error_path {
        Some(dir) => Some(dir@ + "/"@ + decimal(code.code as nat) + ".html"@),
        None => None,
    }
}

/// The file that holds the page for a status, where error pages are
/// configured.
pub fn error_page_path(code: StatusCode, config: &ServerConfig) -> (r: Option<String>)
    ensures
        r.deep_view() == page_path(*config, code),
{
    match config.custom_error_path {
        Some(dir) => {
            let mut out: Vec<char> = Vec::new();
            push_str(&mut out, dir);
            push_str(&mut out, "/");
            push_decimal(&mut out, code.code as u64);
            push_str(&mut out, ".html");
            Some(string_of(out.as_slice()))
        },
        None => None,
    }
}

/// The body that reports a status where no page is configured: the status
/// code, a space, the reason.
pub open spec fn plain_report(code: StatusCode, reason: Seq<char>) -> Seq<u8> {
    encode_utf8(decimal(code.code as nat) + " "@ + reason)
}

/// The response that reports a status: its body is the configured page where
/// there is one, else the plain report.
pub open spec fn error_response(code: StatusCode, page: Option<Seq<u8>>, reason: Seq<char>)
    -> ResponseView {
    let body = match page {
        Some(bytes) => bytes,
        None => plain_report(code, reason),
    };
    ResponseView {
        status: code,
        version: Version::Http11,
        headers: seq![
            ("content-type"@, "text/html"@),
            ("content-length"@, decimal(body.len())),
        ],
        body,
    }
}

/// The response that reports a status, with a given reason.
pub fn error_with_reason(code: StatusCode, page: Option<Vec<u8>>, reason: &str) -> (r: Response)
    ensures
        r@ == error_response(code, contents_of(page), reason@),
{
    let body: Vec<u8> = match page {
        Some(bytes) => bytes,
        None => {
            let mut text: Vec<char> = Vec::new();
            push_decimal(&mut text, code.code as u64);
            push_str(&mut text, " ");
            push_str(&mut text, reason);
            let report = string_of(text.as_slice());
            let mut bytes: Vec<u8> = Vec::new();
            bytes.extend_from_slice(report.as_str().as_bytes());
            assert(bytes@ == plain_report(code, reason@));
            bytes
        },
    };
    assert(body@ == error_response(code, contents_of(page), reason@).body);
    let mut headers: Vec<(String, String)> = Vec::new();
    headers.push((String::from_str("content-type"), String::from_str("text/html")));
    headers.push((String::from_str("content-length"), decimal_string(body.len() as u64)));
    let r = Response { status: code, version: Version::Http11, headers, body };
    assert(r@.headers == seq![
        ("content-type"@, "text/html"@),
        ("content-length"@, decimal(r@.body.len())),
    ]);
    r
}

/// The response that reports a status. `page` is what the file of
/// `error_page_path` holds, where there is such a file.
pub fn error(code: StatusCode, config: &ServerConfig, page: Option<Vec<u8>>) -> (r: Response)
    ensures
        r@ == error_response(code, contents_of(page), reason_text(reason_phrase(code.code))),
{
    match canonical_reason(code.code) {
        Some(reason) => error_with_reason(code, page, reason.as_str()),
        None => {
            let none = "";
            proof {
                reveal_strlit("");
                assert(none@ == Seq::<char>::empty());
            }
            error_with_reason(code, page, none)
        },
    }
}

} // verus!
