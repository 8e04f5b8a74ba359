//! Scripts run through the common gateway interface: which interpreter runs
//! a script, with which arguments and in which environment, and the answer
//! that is made of what the script prints.

use crate::server::config::ServerConfig;
use crate::server::methods::{echoed, resolve, resolved, respond, shown, success, value_text};
use crate::server::protocol::{
    contents_of, Fields, Request, RequestView, Response, ResponseView, StatusCode, BAD_REQUEST,
    INTERNAL_SERVER_ERROR, NOT_FOUND,
};
use crate::text::{
    chars_of, contains_seq, decimal, decimal_string, find, find_chars, pieces, push_str, rfind,
    rfind_char, split, split_chars, str_contains, str_equal, string_of, trim_end, trimmed_end,
};
use vstd::prelude::*;
use vstd::slice::slice_subrange;
use vstd::utf8::{decode_utf8, valid_utf8};

verus! {

/// The interpreters that can run a script.
#[derive(Clone, Copy, Debug, PartialEq, Eq, Structural)]
pub enum Cgi {
    PHP,
    Python,
}

/// A path names a script: it holds the segment `/cgi/`.
pub fn is_cgi_request(path: &str) -> (r: bool)
    ensures
        r == contains_seq(path@, "/cgi/"@),
{
    str_contains(path, "/cgi/")
}

/// A path that was split at the extension holds more than the script: there
/// are exactly two parts.
pub fn contains_path_info(path: Vec<&str>) -> (r: bool)
    ensures
        r == (path.len() == 2),
{
    path.len() == 2
}

/// Whether `char::is_alphanumeric` holds of a character.
pub uninterp spec fn alphanumeric(c: char) -> bool;

/// A letter or a digit: among the ASCII characters the letters `a` to `z`
/// and `A` to `Z` and the digits `0` to `9`, among the others those of
/// which `char::is_alphanumeric` holds.
pub open spec fn letter_or_digit(c: char) -> bool {
    if (c as u32) < 128 {
        ('a' as u32) <= (c as u32) <= ('z' as u32) || ('A' as u32) <= (c as u32) <= ('Z' as u32)
            || ('0' as u32) <= (c as u32) <= ('9' as u32)
    } else {
        alphanumeric(c)
    }
}

/// Asks `char::is_alphanumeric`, which goes by the properties that Unicode
/// gives the character, and by nothing else. Of the ASCII characters
/// Unicode counts the letters `a` to `z` and `A` to `Z` as alphabetic and
/// the digits `0` to `9` as numeric, and no other.
#[verifier::external_body]
pub(crate) fn char_is_alphanumeric(c: char) -> (r: bool)
    ensures
        r == letter_or_digit(c),
        (c as u32) >= 128 ==> r == alphanumeric(c),
{
    c.is_alphanumeric()
}

/// Reads bytes as text with `String::from_utf8`, which accepts exactly the
/// bytes that are UTF-8 and gives the characters that they encode.
#[verifier::external_body]
pub(crate) fn text_of_bytes(bytes: &[u8]) -> (r: Option<String>)
    ensures
        r is Some == valid_utf8(bytes@),
        r matches Some(text) ==> text@ == decode_utf8(bytes@),
{
    String::from_utf8(bytes.to_vec()).ok()
}

/// The end of the run of letters and digits that starts at `i`.
pub open spec fn run_end(s: Seq<char>, i: int) -> int
    decreases s.len() - i,
{
    if 0 <= i < s.len() && letter_or_digit(s[i]) {
        run_end(s, i + 1)
    } else {
        i
    }
}

/// What follows the last dot of a path, or the path where it holds no dot.
pub open spec fn after_last_dot(path: Seq<char>) -> Seq<char> {
    match rfind_char(path, '.', path.len() as int) {
        Some(i) => path.skip(i + 1),
        None => path,
    }
}

/// The extension of a script: the letters and digits that stand first in
/// what follows the last dot of its path.
pub open spec fn script_extension(path: Seq<char>) -> Seq<char> {
    let tail = trim_end(after_last_dot(path));
    tail.take(run_end(tail, 0))
}

/// The path of the script itself: the path up to the first occurrence of
/// its extension, with the extension.
pub open spec fn script_path(path: Seq<char>, ext: Seq<char>) -> Seq<char> {
    let mark = seq!['.'] + ext;
    match find(path, mark) {
        Some(i) => path.take(i) + mark,
        None => path + mark,
    }
}

/// The extension of a script.
pub fn extension_of(path: &str) -> (ext: String)
    ensures
        ext@ == script_extension(path@),
{
    let chars = chars_of(path);
    let start: usize = match rfind(chars.as_slice(), '.', chars.len()) {
        Some(i) => i + 1,
        None => 0,
    };
    let tail = slice_subrange(chars.as_slice(), start, chars.len());
    assert(tail@ == after_last_dot(path@));
    let end: usize = trimmed_end(tail, tail.len());
    let kept = slice_subrange(tail, 0, end);
    assert(kept@ == trim_end(after_last_dot(path@)));
    let mut i: usize = 0;
    while i < kept.len() && char_is_alphanumeric(kept[i])
        invariant
            i <= kept.len(),
            run_end(kept@, 0) == run_end(kept@, i as int),
        decreases kept.len() - i,
    {
        i += 1;
    }
    let run = slice_subrange(kept, 0, i);
    assert(run@ == kept@.take(i as int));
    string_of(run)
}

/// The path of the script itself.
pub fn script_of(path: &str, ext: &str) -> (script: String)
    ensures
        script@ == script_path(path@, ext@),
{
    let chars = chars_of(path);
    let mut mark: Vec<char> = Vec::new();
    mark.push('.');
    push_str(&mut mark, ext);
    assert(mark@ == seq!['.'] + ext@);
    let mut out: Vec<char> = Vec::new();
    match find_chars(chars.as_slice(), mark.as_slice(), 0) {
        Some(i) => {
            out.extend_from_slice(slice_subrange(chars.as_slice(), 0, i));
            assert(chars@.subrange(0, i as int) == path@.take(i as int));
        },
        None => {
            out.extend_from_slice(chars.as_slice());
        },
    }
    out.extend_from_slice(mark.as_slice());
    string_of(out.as_slice())
}

/// The interpreter that the first definition for an extension names, at or
/// after index `from`.
pub open spec fn interpreter(defs: Seq<(&str, Cgi)>, ext: Seq<char>, from: int) -> Option<Cgi>
    decreases defs.len() - from,
{
    if from < 0 || from >= defs.len() {
        None
    } else if defs[from].0@ == ext {
        Some(defs[from].1)
    } else {
        interpreter(defs, ext, from + 1)
    }
}

/// The interpreter that is defined for an extension.
pub fn find_interpreter(defs: &Vec<(&str, Cgi)>, ext: &str) -> (r: Option<Cgi>)
    ensures
        r == interpreter(defs@, ext@, 0),
{
    let mut i: usize = 0;
    while i < defs.len()
        invariant
            i <= defs.len(),
            interpreter(defs@, ext@, 0) == interpreter(defs@, ext@, i as int),
        decreases defs.len() - i,
    {
        if str_equal(defs[i].0, ext) {
            return Some(defs[i].1);
        }
        i += 1;
    }
    None
}

/// The program that runs an interpreter.
pub open spec fn program(kind: Cgi) -> Seq<char> {
    match kind {
        Cgi::PHP => "php"@,
        Cgi::Python => "python3"@,
    }
}

/// The variable that hands a header on to a script, for the headers that
/// are handed on.
pub open spec fn variable_for(name: Seq<char>) -> Option<Seq<char>> {
    if name == "accept"@ {
        Some("HTTP_ACCEPT"@)
    } else if name == "content-length"@ {
        Some("CONTENT_LENGTH"@)
    } else if name == "content-type"@ {
        Some("CONTENT_TYPE"@)
    } else if name == "accept-charset"@ {
        Some("HTTP_ACCEPT_CHARSET"@)
    } else if name == "accept-encoding"@ {
        Some("HTTP_ACCEPT_ENCODING"@)
    } else if name == "accept-language"@ {
        Some("HTTP_ACCEPT_LANGUAGE"@)
    } else if name == "forwarded"@ {
        Some("HTTP_FORWARDED"@)
    } else if name == "host"@ {
        Some("HTTP_HOST"@)
    } else if name == "proxy-authorization"@ {
        Some("HTTP_PROXY_AUTHORIZATION"@)
    } else if name == "user-agent"@ {
        Some("HTTP_USER_AGENT"@)
    } else if name == "cookie"@ {
        Some("COOKIE"@)
    } else {
        None
    }
}

/// The variable that hands a header on to a script.
pub fn variable_name(name: &str) -> (r: Option<&'static str>)
    ensures
        r.deep_view() == variable_for(name@),
{
    if str_equal(name, "accept") {
        Some("HTTP_ACCEPT")
    } else if str_equal(name, "content-length") {
        Some("CONTENT_LENGTH")
    } else if str_equal(name, "content-type") {
        Some("CONTENT_TYPE")
    } else if str_equal(name, "accept-charset") {
        Some("HTTP_ACCEPT_CHARSET")
    } else if str_equal(name, "accept-encoding") {
        Some("HTTP_ACCEPT_ENCODING")
    } else if str_equal(name, "accept-language") {
        Some("HTTP_ACCEPT_LANGUAGE")
    } else if str_equal(name, "forwarded") {
        Some("HTTP_FORWARDED")
    } else if str_equal(name, "host") {
        Some("HTTP_HOST")
    } else if str_equal(name, "proxy-authorization") {
        Some("HTTP_PROXY_AUTHORIZATION")
    } else if str_equal(name, "user-agent") {
        Some("HTTP_USER_AGENT")
    } else if str_equal(name, "cookie") {
        Some("COOKIE")
    } else {
        None
    }
}

/// The variables that the headers of a request set, in the order of the
/// headers: one for each header that is handed on and whose value shows and
/// is not empty.
pub open spec fn http_variables(fields: Fields) -> Fields
    decreases fields.len(),
{
    if fields.len() == 0 {
        Seq::empty()
    } else {
        let rest = http_variables(fields.drop_last());
        let value = shown(fields.last().1);
        match variable_for(fields.last().0) {
            Some(variable) => if value.len() > 0 {
                rest.push((variable, value))
            } else {
                rest
            },
            None => rest,
        }
    }
}

/// The variables that the headers of a request set.
pub fn add_http_variables(headers: &Vec<(String, String)>) -> (r: Vec<(String, String)>)
    ensures
        r.deep_view() == http_variables(headers.deep_view()),
{
    let ghost fields = headers.deep_view();
    let mut out: Vec<(String, String)> = Vec::new();
    assert(out.deep_view() == Fields::empty());
    let mut i: usize = 0;
    while i < headers.len()
        invariant
            i <= headers.len(),
            fields == headers.deep_view(),
            out.deep_view() == http_variables(fields.take(i as int)),
        decreases headers.len() - i,
    {
        proof {
            assert(fields.take(i + 1).drop_last() == fields.take(i as int));
            assert(fields.take(i + 1).last() == fields[i as int]);
        }
        let value = value_text(headers[i].1.as_str());
        if value.as_str().unicode_len() > 0 {
            match variable_name(headers[i].0.as_str()) {
                Some(variable) => {
                    let ghost before = out.deep_view();
                    out.push((String::from_str(variable), value));
                    assert(out.deep_view() == before.push(
                        (variable@, shown(fields[i as int].1)),
                    ));
                },
                None => {},
            }
        }
        i += 1;
    }
    proof {
        assert(fields.take(headers.len() as int) == fields);
    }
    out
}

/// What the path of a request holds beyond the script: where splitting the
/// path at the extension gives exactly two parts, the second.
pub open spec fn path_info(path: Seq<char>, ext: Seq<char>) -> Option<Seq<char>> {
    if ext.len() > 0 && split(path, ext).len() == 2 {
        Some(split(path, ext)[1])
    } else {
        None
    }
}

/// What follows the variables of the headers in the environment of a
/// script.
pub open spec fn request_variables(config: ServerConfig, req: RequestView, ext: Seq<char>)
    -> Fields {
    (match req.query {
        Some(query) => seq![("QUERY_STRING"@, query)],
        None => Seq::empty(),
    }) + seq![("REQUEST_METHOD"@, req.method.text()), ("SERVER_NAME"@, config.host@)] + (match req.port {
        Some(port) => seq![("SERVER_PORT"@, decimal(port as nat))],
        None => Seq::empty(),
    }) + seq![("SERVER_SOFTWARE"@, "Rust v1.74.0"@)] + (match path_info(req.path, ext) {
        Some(info) => seq![("PATH_INFO"@, info)],
        None => Seq::empty(),
    })
}

/// The environment of a script: the variables of the headers, then those of
/// the request.
pub open spec fn environment(config: ServerConfig, req: RequestView, ext: Seq<char>) -> Fields {
    http_variables(req.headers) + request_variables(config, req, ext)
}

/// The environment of a script.
pub fn add_env_variables(req: &Request, config: &ServerConfig, file_extension: &str) -> (r: Vec<
    (String, String),
>)
    ensures
        r.deep_view() == environment(*config, req@, file_extension@),
{
    let mut out = add_http_variables(&req.headers);
    let ghost first = out.deep_view();
    let ghost a = match req@.query {
        Some(query) => seq![("QUERY_STRING"@, query)],
        None => Fields::empty(),
    };
    match &req.query {
        Some(query) => {
            out.push((String::from_str("QUERY_STRING"), query.clone()));
        },
        None => {},
    }
    assert(out.deep_view() == first + a);
    out.push((String::from_str("REQUEST_METHOD"), String::from_str(req.method.as_str())));
    out.push((String::from_str("SERVER_NAME"), String::from_str(config.host)));
    let ghost b = a + seq![("REQUEST_METHOD"@, req@.method.text()), ("SERVER_NAME"@, config.host@)];
    assert(out.deep_view() == first + b);
    let ghost c = b + match req@.port {
        Some(port) => seq![("SERVER_PORT"@, decimal(port as nat))],
        None => Fields::empty(),
    };
    match req.port {
        Some(port) => {
            out.push((String::from_str("SERVER_PORT"), decimal_string(port as u64)));
        },
        None => {},
    }
    assert(out.deep_view() == first + c);
    out.push((String::from_str("SERVER_SOFTWARE"), String::from_str("Rust v1.74.0")));
    let ghost d = c + seq![("SERVER_SOFTWARE"@, "Rust v1.74.0"@)];
    assert(out.deep_view() == first + d);
    let ext = chars_of(file_extension);
    if ext.len() > 0 {
        let path = chars_of(req.path.as_str());
        let parts = split_chars(path.as_slice(), ext.as_slice());
        if parts.len() == 2 {
            let (from, to) = parts[1];
            let info = slice_subrange(path.as_slice(), from, to);
            proof {
                assert(pieces(path@, parts@).len() == 2);
                assert(pieces(path@, parts@)[1] == path@.subrange(from as int, to as int));
            }
            out.push((String::from_str("PATH_INFO"), string_of(info)));
            assert(out.deep_view() == first + (d + seq![("PATH_INFO"@, info@)]));
        } else {
            assert(pieces(path@, parts@).len() == parts.len());
            assert(first + d == first + (d + Fields::empty()));
        }
    } else {
        assert(first + d == first + (d + Fields::empty()));
    }
    out
}

/// How a script is run: the program, its arguments, and the variables of
/// its environment in the order in which they are set.
#[derive(Debug, PartialEq, Eq)]
pub struct CgiCommand {
    pub program: String,
    pub arguments: Vec<String>,
    pub environment: Vec<(String, String)>,
}

/// A command as specifications see it.
pub struct CgiCommandView {
    pub program: Seq<char>,
    pub arguments: Seq<Seq<char>>,
    pub environment: Fields,
}

impl View for CgiCommand {
    type V = CgiCommandView;

    open spec fn view(&self) -> CgiCommandView {
        CgiCommandView {
            program: self.program@,
            arguments: self.arguments.deep_view(),
            environment: self.environment.deep_view(),
        }
    }
}

/// How the script of a request is run. A route without settings, or
/// settings without interpreters, or a body that is no text make a bad
/// request; an extension without an interpreter is not found.
pub open spec fn planned(config: ServerConfig, req: RequestView) -> Result<
    CgiCommandView,
    StatusCode,
> {
    match resolved(config, req) {
        Err(code) => Err(code),
        Ok((i, full_path)) => match config.routes@[i].settings {
            None => Err(StatusCode { code: BAD_REQUEST }),
            Some(settings) => match settings.cgi_def {
                None => Err(StatusCode { code: BAD_REQUEST }),
                Some(defs) => if !valid_utf8(req.body) {
                    Err(StatusCode { code: BAD_REQUEST })
                } else {
                    let ext = script_extension(full_path);
                    match interpreter(defs@, ext, 0) {
                        None => Err(StatusCode { code: NOT_FOUND }),
                        Some(kind) => Ok(
                            CgiCommandView {
                                program: program(kind),
                                arguments: seq![
                                    script_path(full_path, ext),
                                    decode_utf8(req.body),
                                ],
                                environment: environment(config, req, ext),
                            },
                        ),
                    }
                },
            },
        },
    }
}

/// How the script of a request is run.
pub fn prepare_cgi_script(req: &Request, config: &ServerConfig) -> (r: Result<
    CgiCommand,
    StatusCode,
>)
    ensures
        match r {
            Ok(command) => planned(*config, req@) == Ok::<CgiCommandView, StatusCode>(command@),
            Err(code) => planned(*config, req@) == Err::<CgiCommandView, StatusCode>(code),
        },
{
    let (i, full_path) = match resolve(req, config) {
        Ok(found) => found,
        Err(code) => {
            return Err(code);
        },
    };
    let settings = match &config.routes[i].settings {
        Some(settings) => settings,
        None => {
            return Err(StatusCode { code: BAD_REQUEST });
        },
    };
    let defs = match &settings.cgi_def {
        Some(defs) => defs,
        None => {
            return Err(StatusCode { code: BAD_REQUEST });
        },
    };
    let body = match text_of_bytes(req.body.as_slice()) {
        Some(body) => body,
        None => {
            return Err(StatusCode { code: BAD_REQUEST });
        },
    };
    let ext = extension_of(full_path.as_str());
    let kind = match find_interpreter(defs, ext.as_str()) {
        Some(kind) => kind,
        None => {
            return Err(StatusCode { code: NOT_FOUND });
        },
    };
    let program = match kind {
        Cgi::PHP => String::from_str("php"),
        Cgi::Python => String::from_str("python3"),
    };
    let script = script_of(full_path.as_str(), ext.as_str());
    let ghost wanted = seq![script@, body@];
    let mut arguments: Vec<String> = Vec::new();
    arguments.push(script);
    arguments.push(body);
    assert(arguments.deep_view() == wanted);
    let environment = add_env_variables(req, config, ext.as_str());
    Ok(CgiCommand { program, arguments, environment })
}

/// The answer to a request for a script: what the script printed, as a
/// page. A script that could not be run is a server error.
pub open spec fn cgi_result(config: ServerConfig, req: RequestView, output: Option<Seq<u8>>)
    -> Result<ResponseView, StatusCode> {
    match planned(config, req) {
        Err(code) => Err(code),
        Ok(_) => match output {
            None => Err(StatusCode { code: INTERNAL_SERVER_ERROR }),
            Some(printed) => success(
                config.host@,
                req.version,
                "text/html"@,
                printed.len(),
                Seq::empty(),
                echoed(req.headers),
                printed,
            ),
        },
    }
}

/// Answers a request for a script. `output` is what the command of
/// `prepare_cgi_script` printed, where it could be run.
pub fn execute_cgi_script(req: &Request, config: &ServerConfig, output: Option<Vec<u8>>) -> (r:
    Result<Response, StatusCode>)
    ensures
        match r {
            Ok(response) => cgi_result(*config, req@, contents_of(output)) == Ok::<
                ResponseView,
                StatusCode,
            >(response@),
            Err(code) => cgi_result(*config, req@, contents_of(output)) == Err::<
                ResponseView,
                StatusCode,
            >(code),
        },
{
    match prepare_cgi_script(req, config) {
        Err(code) => Err(code),
        Ok(_) => match output {
            None => Err(StatusCode { code: INTERNAL_SERVER_ERROR }),
            Some(printed) => respond(
                config.host,
                req.version,
                "text/html",
                printed.len() as u64,
                None,
                &req.headers,
                printed,
            ),
        },
    }
}

} // verus!
