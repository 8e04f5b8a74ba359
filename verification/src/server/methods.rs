//! The methods of a request, and what each of them does.

use crate::server::config::{Route, ServerConfig};
use crate::server::effects::{
    Effect, EffectView, Fact, FactView, Need, NeedView, Outcome, OutcomeView,
};
use crate::server::protocol::{
    built, contents_of, field, fields_named, find_header, is_token, method_named, method_token_ok,
    Builder, Fields, Method, MethodName, Request, RequestView, Response, ResponseView, StatusCode,
    Version, BAD_REQUEST, INTERNAL_SERVER_ERROR, NOT_FOUND, NOT_IMPLEMENTED, OK,
};
use crate::server::requests::{
    add_root_to_path, get_line, get_split_index, line_at, rooted_path, word_at,
};
use crate::server::responses::{content_type, content_type_of};
use crate::server::routes::{route_for, route_index};
use crate::text::{
    chars_of, decimal, decimal_string, free_of, join, lemma_split_join, lowercase, push_str, split,
    str_equal, string_of, to_lower,
};
use vstd::prelude::*;
use vstd::utf8::encode_utf8;

verus! {

/// The method of a request: the one that the first word of its first line
/// names. A word that is no token makes a bad request.
pub open spec fn method_of(req: Seq<char>) -> Result<MethodName, StatusCode> {
    let word = word_at(line_at(req, 0), 0);
    if is_token(word) {
        Ok(method_named(word))
    } else {
        Err(StatusCode { code: BAD_REQUEST })
    }
}

/// The method of a request.
pub fn get_method(req: &str) -> (r: Result<Method, StatusCode>)
    ensures
        match r {
            Ok(method) => method_of(req@) == Ok::<MethodName, StatusCode>(method@),
            Err(code) => method_of(req@) == Err::<MethodName, StatusCode>(code),
        },
{
    let line = get_line(req, 0);
    let word = get_split_index(line, 0);
    if method_token_ok(word) {
        Ok(Method::from_token(word))
    } else {
        Err(StatusCode { code: BAD_REQUEST })
    }
}

/// The names of a list of methods.
pub open spec fn method_names(methods: Seq<Method>) -> Seq<MethodName> {
    Seq::new(methods.len(), |i: int| methods[i]@)
}

/// The route allows the method: it is among the route's methods.
pub open spec fn allows(route: Route, method: MethodName) -> bool {
    method_names(route.methods@).contains(method)
}

/// The route allows the method.
pub fn method_is_allowed(method: &Method, route: &Route) -> (r: bool)
    ensures
        r == allows(*route, method@),
{
    let mut i: usize = 0;
    while i < route.methods.len()
        invariant
            i <= route.methods.len(),
            forall|j: int| 0 <= j < i ==> method_names(route.methods@)[j] != method@,
        decreases route.methods.len() - i,
    {
        if route.methods[i].same(method) {
            assert(method_names(route.methods@)[i as int] == method@);
            return true;
        }
        i += 1;
    }
    false
}

/// The tokens of a list of methods.
pub open spec fn method_texts(methods: Seq<Method>) -> Seq<Seq<char>> {
    Seq::new(methods.len(), |i: int| methods[i]@.text())
}

/// What an `Allow` header says of a route: its methods in order, with a comma
/// and a space between them.
pub open spec fn allow_value(route: Route) -> Seq<char> {
    join(method_texts(route.methods@), ", "@)
}

/// What an `Allow` header says of a route.
pub fn allowed_methods(route: &Route) -> (r: String)
    ensures
        r@ == allow_value(*route),
{
    let ghost texts = method_texts(route.methods@);
    let mut out: Vec<char> = Vec::new();
    let mut i: usize = 0;
    while i < route.methods.len()
        invariant
            i <= route.methods.len(),
            texts == method_texts(route.methods@),
            out@ == join(texts.take(i as int), ", "@),
        decreases route.methods.len() - i,
    {
        if i > 0 {
            push_str(&mut out, ", ");
        }
        push_str(&mut out, route.methods[i].as_str());
        proof {
            assert(texts.take(i + 1).drop_last() == texts.take(i as int));
            assert(texts.take(i + 1).last() == texts[i as int]);
            if i == 0 {
                assert(texts.take(0).len() == 0);
                assert(texts.take(1)[0] == texts[0]);
            }
        }
        i += 1;
    }
    proof {
        assert(texts.take(route.methods.len() as int) == texts);
    }
    string_of(out.as_slice())
}

/// The fields that every successful response carries: the host, the type of
/// the content, its length.
pub open spec fn success_fields(host: Seq<char>, content_type: Seq<char>, length: nat) -> Fields {
    seq![
        ("host"@, host),
        ("content-type"@, content_type),
        ("content-length"@, decimal(length)),
    ]
}

/// The fields of a request that a response to a safe method repeats.
pub open spec fn echoed(fields: Fields) -> Fields {
    fields_named(fields, "transfer-encoding"@)
}

/// The response to a request that succeeded: status 200, the fields of every
/// successful response, then the fields of its own, then the repeated ones.
pub open spec fn success(
    host: Seq<char>,
    version: Version,
    content_type: Seq<char>,
    length: nat,
    own: Fields,
    repeated: Fields,
    body: Seq<u8>,
) -> Result<ResponseView, StatusCode> {
    built(OK, version, success_fields(host, content_type, length) + own + repeated, body)
}

/// Builds the response to a request that succeeded. Of `request_fields`,
/// those that a safe method repeats are repeated.
pub fn respond(
    host: &str,
    version: Version,
    content_type: &str,
    length: u64,
    own: Option<(&str, &str)>,
    request_fields: &Vec<(String, String)>,
    body: Vec<u8>,
) -> (r: Result<Response, StatusCode>)
    ensures
        match r {
            Ok(response) => success(
                host@,
                version,
                content_type@,
                length as nat,
                match own {
                    Some((name, value)) => seq![(name@, value@)],
                    None => Seq::empty(),
                },
                echoed(request_fields.deep_view()),
                body@,
            ) == Ok::<ResponseView, StatusCode>(response@),
            Err(code) => success(
                host@,
                version,
                content_type@,
                length as nat,
                match own {
                    Some((name, value)) => seq![(name@, value@)],
                    None => Seq::empty(),
                },
                echoed(request_fields.deep_view()),
                body@,
            ) == Err::<ResponseView, StatusCode>(code),
        },
{
    let mut builder = Builder::new(version);
    builder.header("host", host);
    builder.header("content-type", content_type);
    builder.header("content-length", decimal_string(length).as_str());
    match own {
        Some((name, value)) => {
            builder.header(name, value);
        },
        None => {},
    }
    let ghost base = builder.fields();
    let ghost fields = request_fields.deep_view();
    assert(base == success_fields(host@, content_type@, length as nat) + match own {
        Some((name, value)) => seq![(name@, value@)],
        None => Seq::empty(),
    });
    let mut i: usize = 0;
    assert(fields.take(0) == Fields::empty());
    assert(base + Fields::empty() == base);
    while i < request_fields.len()
        invariant
            i <= request_fields.len(),
            fields == request_fields.deep_view(),
            builder.well_formed(),
            builder.status == OK,
            builder.version == version,
            builder.fields() == base + echoed(fields.take(i as int)),
        decreases request_fields.len() - i,
    {
        proof {
            assert(fields.take(i + 1).drop_last() == fields.take(i as int));
            assert(fields.take(i + 1).last() == fields[i as int]);
        }
        if str_equal(request_fields[i].0.as_str(), "transfer-encoding") {
            let ghost before = builder.fields();
            builder.header(request_fields[i].0.as_str(), request_fields[i].1.as_str());
            assert(builder.fields() == base + echoed(fields.take(i as int)).push(fields[i as int]));
        }
        i += 1;
    }
    proof {
        assert(fields.take(request_fields.len() as int) == fields);
    }
    builder.body(body)
}

/// The file that a request names: the index of its route and the path of the
/// file under the route's root; the status of the error where no route
/// serves the request.
pub open spec fn resolved(config: ServerConfig, req: RequestView) -> Result<
    (int, Seq<char>),
    StatusCode,
> {
    match route_for(config, req.path, req.method) {
        Ok(i) => Ok((i, rooted_path(config.routes@[i], req.path))),
        Err((code, _)) => Err(code),
    }
}

/// The file that a request names.
pub fn resolve(req: &Request, config: &ServerConfig) -> (r: Result<(usize, String), StatusCode>)
    ensures
        match r {
            Ok((i, path)) => resolved(*config, req@) == Ok::<(int, Seq<char>), StatusCode>(
                (i as int, path@),
            ) && i < config.routes.len(),
            Err(code) => resolved(*config, req@) == Err::<(int, Seq<char>), StatusCode>(code),
        },
{
    match route_index(req, config) {
        Ok(i) => Ok((i, add_root_to_path(&config.routes[i], req.path.as_str()))),
        Err((code, _)) => Err(code),
    }
}

/// The answer to GET: the bytes of the file with their type and length; the
/// file is not found where it could not be read.
pub open spec fn get_result(config: ServerConfig, req: RequestView, contents: Option<Seq<u8>>)
    -> Result<ResponseView, StatusCode> {
    match resolved(config, req) {
        Err(code) => Err(code),
        Ok((_, path)) => match contents {
            None => Err(StatusCode { code: NOT_FOUND }),
            Some(bytes) => success(
                config.host@,
                req.version,
                content_type_of(path),
                bytes.len(),
                Seq::empty(),
                echoed(req.headers),
                bytes,
            ),
        },
    }
}

/// Answers GET. `contents` is what reading the file of `resolve` gave.
pub fn get(req: &Request, config: &ServerConfig, contents: Option<Vec<u8>>) -> (r: Result<
    Response,
    StatusCode,
>)
    ensures
        match r {
            Ok(response) => get_result(*config, req@, contents_of(contents)) == Ok::<
                ResponseView,
                StatusCode,
            >(response@),
            Err(code) => get_result(*config, req@, contents_of(contents)) == Err::<
                ResponseView,
                StatusCode,
            >(code),
        },
{
    let (_, path) = match resolve(req, config) {
        Ok(found) => found,
        Err(code) => {
            return Err(code);
        },
    };
    match contents {
        None => Err(StatusCode { code: NOT_FOUND }),
        Some(bytes) => respond(
            config.host,
            req.version,
            content_type(path.as_str()),
            bytes.len() as u64,
            None,
            &req.headers,
            bytes,
        ),
    }
}

/// The answer to HEAD: the type and the length of the file, and no body; a
/// file whose length could not be had is a server error.
pub open spec fn head_result(config: ServerConfig, req: RequestView, length: Option<u64>) -> Result<
    ResponseView,
    StatusCode,
> {
    match resolved(config, req) {
        Err(code) => Err(code),
        Ok((_, path)) => match length {
            None => Err(StatusCode { code: INTERNAL_SERVER_ERROR }),
            Some(n) => success(
                config.host@,
                req.version,
                content_type_of(path),
                n as nat,
                Seq::empty(),
                echoed(req.headers),
                Seq::empty(),
            ),
        },
    }
}

/// Answers HEAD. `length` is the length of the file of `resolve`, where it
/// could be had.
pub fn head(req: &Request, config: &ServerConfig, length: Option<u64>) -> (r: Result<
    Response,
    StatusCode,
>)
    ensures
        match r {
            Ok(response) => head_result(*config, req@, length) == Ok::<ResponseView, StatusCode>(
                response@,
            ),
            Err(code) => head_result(*config, req@, length) == Err::<ResponseView, StatusCode>(
                code,
            ),
        },
{
    let (_, path) = match resolve(req, config) {
        Ok(found) => found,
        Err(code) => {
            return Err(code);
        },
    };
    match length {
        None => Err(StatusCode { code: INTERNAL_SERVER_ERROR }),
        Some(n) => respond(
            config.host,
            req.version,
            content_type(path.as_str()),
            n,
            None,
            &req.headers,
            Vec::new(),
        ),
    }
}

/// The answer to OPTIONS: the methods of the route, and no body.
pub open spec fn options_result(route: Route, config: ServerConfig, req: RequestView) -> Result<
    ResponseView,
    StatusCode,
> {
    success(
        config.host@,
        req.version,
        "text/plain"@,
        0,
        seq![("allow"@, allow_value(route))],
        echoed(req.headers),
        Seq::empty(),
    )
}

/// Answers OPTIONS.
pub fn options(route: &Route, req: &Request, config: &ServerConfig) -> (r: Result<
    Response,
    StatusCode,
>)
    ensures
        match r {
            Ok(response) => options_result(*route, *config, req@) == Ok::<
                ResponseView,
                StatusCode,
            >(response@),
            Err(code) => options_result(*route, *config, req@) == Err::<ResponseView, StatusCode>(
                code,
            ),
        },
{
    let allow = allowed_methods(route);
    respond(
        config.host,
        req.version,
        "text/plain",
        0,
        Some(("allow", allow.as_str())),
        &req.headers,
        Vec::new(),
    )
}

/// A text without the sign that it may begin with.
pub open spec fn unsigned(s: Seq<char>) -> Seq<char> {
    if s.len() > 0 && (s[0] == '+' || s[0] == '-') {
        s.skip(1)
    } else {
        s
    }
}

/// Every character of `s` is the digit zero.
pub open spec fn all_zeros(s: Seq<char>) -> bool {
    forall|i: int| 0 <= i < s.len() ==> #[trigger] s[i] == '0'
}

/// A text that writes the number zero: an optional sign, then zeros only, at
/// least one.
pub open spec fn writes_zero(s: Seq<char>) -> bool {
    unsigned(s).len() > 0 && all_zeros(unsigned(s))
}

/// The text writes the number zero.
pub fn is_zero(text: &str) -> (r: bool)
    ensures
        r == writes_zero(text@),
{
    let chars = chars_of(text);
    let start: usize = if chars.len() > 0 && (chars[0] == '+' || chars[0] == '-') {
        1
    } else {
        0
    };
    if start == chars.len() {
        return false;
    }
    let ghost digits = unsigned(text@);
    assert(digits == chars@.skip(start as int));
    let mut i: usize = start;
    while i < chars.len()
        invariant
            start <= i <= chars.len(),
            start < chars.len(),
            chars@ == text@,
            digits == unsigned(text@),
            digits == chars@.skip(start as int),
            all_zeros(digits.take(i - start)),
        decreases chars.len() - i,
    {
        if chars[i] != '0' {
            proof {
                let k = i - start;
                assert(digits[k] == chars@[i as int]);
                assert(!all_zeros(digits));
            }
            return false;
        }
        proof {
            let now = digits.take(i + 1 - start);
            assert forall|j: int| 0 <= j < now.len() implies #[trigger] now[j] == '0' by {
                if j < i - start {
                    assert(digits.take(i - start)[j] == '0');
                } else {
                    assert(now[j] == chars@[i as int]);
                }
            }
        }
        i += 1;
    }
    proof {
        assert(digits.take(chars.len() - start) == digits);
    }
    true
}

/// A character that shows: a tab, or an ASCII character from the space to
/// the tilde.
pub open spec fn is_visible(c: char) -> bool {
    c == '\t' || (' ' <= c <= '~')
}

/// A header value as text: the value where all of it shows, else nothing.
pub open spec fn shown(value: Seq<char>) -> Seq<char> {
    if forall|i: int| 0 <= i < value.len() ==> is_visible(#[trigger] value[i]) {
        value
    } else {
        Seq::empty()
    }
}

/// A header value as text.
pub fn value_text(value: &str) -> (r: String)
    ensures
        r@ == shown(value@),
{
    let chars = chars_of(value);
    let mut i: usize = 0;
    while i < chars.len()
        invariant
            i <= chars.len(),
            chars@ == value@,
            forall|j: int| 0 <= j < i ==> is_visible(#[trigger] value@[j]),
        decreases chars.len() - i,
    {
        let c: char = chars[i];
        if !(c == '\t' || (' ' <= c && c <= '~')) {
            assert(!is_visible(value@[i as int]));
            return String::new();
        }
        i += 1;
    }
    String::from_str(value)
}

/// A field that is not repeated to the client: a cookie or an
/// authorization.
pub open spec fn is_sensitive(name: Seq<char>) -> bool {
    to_lower(name) == "cookie"@ || to_lower(name) == "authorization"@
}

/// The lines that repeat the fields of a request, the sensitive ones left
/// out: for each a name, a colon and a space, the value.
pub open spec fn echo_lines(fields: Fields) -> Seq<Seq<char>>
    decreases fields.len(),
{
    if fields.len() == 0 {
        Seq::empty()
    } else {
        let rest = echo_lines(fields.drop_last());
        if is_sensitive(fields.last().0) {
            rest
        } else {
            rest.push(fields.last().0 + ": "@ + fields.last().1)
        }
    }
}

/// The first line of a request as it is repeated: method, target, version.
pub open spec fn request_line(req: RequestView) -> Seq<char> {
    req.method.text() + " "@ + req.uri + " "@ + req.version.text()
}

/// What TRACE repeats of a request: its first line and its fields but the
/// sensitive ones, with a line break between the lines.
pub open spec fn trace_echo(req: RequestView) -> Seq<char> {
    join(seq![request_line(req)] + echo_lines(req.headers), "\r\n"@)
}

/// What a `via` field says on the way back: what the request's own said,
/// then the host.
pub open spec fn via_value(fields: Fields, host: Seq<char>) -> Seq<char> {
    match field(fields, "via"@) {
        Some(value) => shown(value) + ", "@ + host,
        None => host,
    }
}

/// The answer to TRACE: the request repeated as a message. A request that
/// may be forwarded zero times more is a bad request.
pub open spec fn trace_result(config: ServerConfig, req: RequestView) -> Result<
    ResponseView,
    StatusCode,
> {
    if field(req.headers, "max-forwards"@) matches Some(value) && writes_zero(value) {
        Err(StatusCode { code: BAD_REQUEST })
    } else {
        success(
            config.host@,
            req.version,
            "message/http"@,
            encode_utf8(trace_echo(req)).len(),
            seq![("via"@, via_value(req.headers, config.host@))],
            echoed(req.headers),
            encode_utf8(trace_echo(req)),
        )
    }
}

/// Answers TRACE.
pub fn trace(req: &Request, config: &ServerConfig) -> (r: Result<Response, StatusCode>)
    ensures
        match r {
            Ok(response) => trace_result(*config, req@) == Ok::<ResponseView, StatusCode>(
                response@,
            ),
            Err(code) => trace_result(*config, req@) == Err::<ResponseView, StatusCode>(code),
        },
{
    match find_header(&req.headers, "max-forwards") {
        Some(value) => {
            if is_zero(value.as_str()) {
                return Err(StatusCode { code: BAD_REQUEST });
            }
        },
        None => {},
    }
    let via: String = match find_header(&req.headers, "via") {
        Some(value) => {
            let mut text = value_text(value.as_str());
            text.append(", ");
            text.append(config.host);
            text
        },
        None => String::from_str(config.host),
    };
    let mut out: Vec<char> = Vec::new();
    push_str(&mut out, req.method.as_str());
    push_str(&mut out, " ");
    push_str(&mut out, req.uri.as_str());
    push_str(&mut out, " ");
    push_str(&mut out, req.version.as_str());
    let ghost first = request_line(req@);
    let ghost fields = req.headers.deep_view();
    assert(out@ == first);
    assert(seq![first] + echo_lines(fields.take(0)) == seq![first]);
    let mut i: usize = 0;
    while i < req.headers.len()
        invariant
            i <= req.headers.len(),
            fields == req.headers.deep_view(),
            out@ == join(seq![first] + echo_lines(fields.take(i as int)), "\r\n"@),
        decreases req.headers.len() - i,
    {
        proof {
            assert(fields.take(i + 1).drop_last() == fields.take(i as int));
            assert(fields.take(i + 1).last() == fields[i as int]);
        }
        let low = lowercase(req.headers[i].0.as_str());
        if !(str_equal(low.as_str(), "cookie") || str_equal(low.as_str(), "authorization")) {
            push_str(&mut out, "\r\n");
            push_str(&mut out, req.headers[i].0.as_str());
            push_str(&mut out, ": ");
            push_str(&mut out, req.headers[i].1.as_str());
            proof {
                let before = seq![first] + echo_lines(fields.take(i as int));
                let line = fields[i as int].0 + ": "@ + fields[i as int].1;
                assert(seq![first] + echo_lines(fields.take(i + 1)) == before.push(line));
                assert(before.push(line).drop_last() == before);
                assert(before.push(line).last() == line);
            }
        }
        i += 1;
    }
    proof {
        assert(fields.take(req.headers.len() as int) == fields);
    }
    let text = string_of(out.as_slice());
    let mut body: Vec<u8> = Vec::new();
    body.extend_from_slice(text.as_str().as_bytes());
    assert(body@ == encode_utf8(trace_echo(req@)));
    respond(
        config.host,
        req.version,
        "message/http",
        body.len() as u64,
        Some(("via", via.as_str())),
        &req.headers,
        body,
    )
}

/// The answer to a method that changes a file, where the change succeeds:
/// the bytes with the type that the path gives them.
pub open spec fn unsafe_result(config: ServerConfig, path: Seq<char>, body: Seq<u8>) -> Result<
    ResponseView,
    StatusCode,
> {
    success(
        config.host@,
        Version::Http11,
        content_type_of(path),
        body.len(),
        Seq::empty(),
        Seq::empty(),
        body,
    )
}

/// Builds the answer to a method that changes a file.
pub fn unsafe_response(config: &ServerConfig, path: &str, body: Vec<u8>) -> (r: Result<
    Response,
    StatusCode,
>)
    ensures
        match r {
            Ok(response) => unsafe_result(*config, path@, body@) == Ok::<ResponseView, StatusCode>(
                response@,
            ),
            Err(code) => unsafe_result(*config, path@, body@) == Err::<ResponseView, StatusCode>(
                code,
            ),
        },
{
    let none: Vec<(String, String)> = Vec::new();
    proof {
        assert(none.deep_view() == Fields::empty());
        assert(echoed(Fields::empty()) == Fields::empty());
    }
    respond(
        config.host,
        Version::Http11,
        content_type(path),
        body.len() as u64,
        None,
        &none,
        body,
    )
}

/// The outcome of a method that writes `body` to `target` and answers with
/// the bytes under the type of `path`.
pub open spec fn written(
    config: ServerConfig,
    path: Seq<char>,
    target: Seq<char>,
    body: Seq<u8>,
) -> Result<OutcomeView, StatusCode> {
    match unsafe_result(config, path, body) {
        Err(code) => Err(code),
        Ok(response) => Ok(
            OutcomeView {
                effect: EffectView::Write { path: target, body },
                response,
                failure: StatusCode { code: INTERNAL_SERVER_ERROR },
            },
        ),
    }
}

/// The outcome of POST: the body is written to the free name.
pub open spec fn post_result(config: ServerConfig, req: RequestView, target: Seq<char>) -> Result<
    OutcomeView,
    StatusCode,
> {
    match resolved(config, req) {
        Err(code) => Err(code),
        Ok((_, path)) => written(config, path, target, req.body),
    }
}

/// The outcome of PUT: the body is written to the file.
pub open spec fn put_result(config: ServerConfig, req: RequestView) -> Result<
    OutcomeView,
    StatusCode,
> {
    match resolved(config, req) {
        Err(code) => Err(code),
        Ok((_, path)) => written(config, path, path, req.body),
    }
}

/// The outcome of PATCH: the body is written to the file, which has to
/// exist.
pub open spec fn patch_result(config: ServerConfig, req: RequestView, exists: bool) -> Result<
    OutcomeView,
    StatusCode,
> {
    match resolved(config, req) {
        Err(code) => Err(code),
        Ok((_, path)) => if exists {
            written(config, path, path, req.body)
        } else {
            Err(StatusCode { code: NOT_FOUND })
        },
    }
}

/// The outcome of DELETE: the file is removed and its bytes are the answer;
/// a file that could not be read is not found.
pub open spec fn delete_result(config: ServerConfig, req: RequestView, contents: Option<Seq<u8>>)
    -> Result<OutcomeView, StatusCode> {
    match resolved(config, req) {
        Err(code) => Err(code),
        Ok((_, path)) => match contents {
            None => Err(StatusCode { code: NOT_FOUND }),
            Some(bytes) => match unsafe_result(config, path, bytes) {
                Err(code) => Err(code),
                Ok(response) => Ok(
                    OutcomeView {
                        effect: EffectView::RemoveFile { path },
                        response,
                        failure: StatusCode { code: INTERNAL_SERVER_ERROR },
                    },
                ),
            },
        },
    }
}

/// Writes `body` to `target` and answers under the type of `path`.
pub fn write_outcome(config: &ServerConfig, path: &str, target: String, body: &Vec<u8>) -> (r:
    Result<Outcome, StatusCode>)
    ensures
        match r {
            Ok(outcome) => written(*config, path@, target@, body@) == Ok::<
                OutcomeView,
                StatusCode,
            >(outcome@),
            Err(code) => written(*config, path@, target@, body@) == Err::<OutcomeView, StatusCode>(
                code,
            ),
        },
{
    let copy = vstd::slice::slice_to_vec(body.as_slice());
    let kept = vstd::slice::slice_to_vec(body.as_slice());
    match unsafe_response(config, path, copy) {
        Err(code) => Err(code),
        Ok(response) => Ok(
            Outcome {
                effect: Effect::Write { path: target, body: kept },
                response,
                failure: StatusCode { code: INTERNAL_SERVER_ERROR },
            },
        ),
    }
}

/// Answers POST. `target` is the name that the steps of POST ended on.
pub fn post(req: &Request, config: &ServerConfig, target: String) -> (r: Result<
    Outcome,
    StatusCode,
>)
    ensures
        match r {
            Ok(outcome) => post_result(*config, req@, target@) == Ok::<OutcomeView, StatusCode>(
                outcome@,
            ),
            Err(code) => post_result(*config, req@, target@) == Err::<OutcomeView, StatusCode>(
                code,
            ),
        },
{
    let (_, path) = match resolve(req, config) {
        Ok(found) => found,
        Err(code) => {
            return Err(code);
        },
    };
    write_outcome(config, path.as_str(), target, &req.body)
}

/// Answers PUT.
pub fn put(req: &Request, config: &ServerConfig) -> (r: Result<Outcome, StatusCode>)
    ensures
        match r {
            Ok(outcome) => put_result(*config, req@) == Ok::<OutcomeView, StatusCode>(outcome@),
            Err(code) => put_result(*config, req@) == Err::<OutcomeView, StatusCode>(code),
        },
{
    let (_, path) = match resolve(req, config) {
        Ok(found) => found,
        Err(code) => {
            return Err(code);
        },
    };
    let target = path.clone();
    write_outcome(config, path.as_str(), target, &req.body)
}

/// Answers PATCH. `exists` says whether the file of `resolve` exists.
pub fn patch(req: &Request, config: &ServerConfig, exists: bool) -> (r: Result<
    Outcome,
    StatusCode,
>)
    ensures
        match r {
            Ok(outcome) => patch_result(*config, req@, exists) == Ok::<OutcomeView, StatusCode>(
                outcome@,
            ),
            Err(code) => patch_result(*config, req@, exists) == Err::<OutcomeView, StatusCode>(
                code,
            ),
        },
{
    let (_, path) = match resolve(req, config) {
        Ok(found) => found,
        Err(code) => {
            return Err(code);
        },
    };
    if !exists {
        return Err(StatusCode { code: NOT_FOUND });
    }
    let target = path.clone();
    write_outcome(config, path.as_str(), target, &req.body)
}

/// Answers DELETE. `contents` is what reading the file of `resolve` gave.
pub fn delete(req: &Request, config: &ServerConfig, contents: Option<Vec<u8>>) -> (r: Result<
    Outcome,
    StatusCode,
>)
    ensures
        match r {
            Ok(outcome) => delete_result(*config, req@, contents_of(contents)) == Ok::<
                OutcomeView,
                StatusCode,
            >(outcome@),
            Err(code) => delete_result(*config, req@, contents_of(contents)) == Err::<
                OutcomeView,
                StatusCode,
            >(code),
        },
{
    let (_, path) = match resolve(req, config) {
        Ok(found) => found,
        Err(code) => {
            return Err(code);
        },
    };
    match contents {
        None => Err(StatusCode { code: NOT_FOUND }),
        Some(bytes) => match unsafe_response(config, path.as_str(), bytes) {
            Err(code) => Err(code),
            Ok(response) => Ok(
                Outcome {
                    effect: Effect::RemoveFile { path },
                    response,
                    failure: StatusCode { code: INTERNAL_SERVER_ERROR },
                },
            ),
        },
    }
}

/// What a request needs to know of its file, by its method.
pub open spec fn needed(config: ServerConfig, req: RequestView) -> Result<NeedView, StatusCode> {
    match req.method {
        MethodName::Get | MethodName::Delete => match resolved(config, req) {
            Ok((_, path)) => Ok(NeedView::Contents(path)),
            Err(code) => Err(code),
        },
        MethodName::Head => match resolved(config, req) {
            Ok((_, path)) => Ok(NeedView::Length(path)),
            Err(code) => Err(code),
        },
        MethodName::Patch => match resolved(config, req) {
            Ok((_, path)) => Ok(NeedView::Existence(path)),
            Err(code) => Err(code),
        },
        MethodName::Post => match resolved(config, req) {
            Ok((_, path)) => Ok(NeedView::FreeName(path)),
            Err(code) => Err(code),
        },
        _ => Ok(NeedView::Nothing),
    }
}

/// What a request needs to know of its file before `handle_method` can
/// answer it.
pub fn file_need(req: &Request, config: &ServerConfig) -> (r: Result<Need, StatusCode>)
    ensures
        match r {
            Ok(need) => needed(*config, req@) == Ok::<NeedView, StatusCode>(need@),
            Err(code) => needed(*config, req@) == Err::<NeedView, StatusCode>(code),
        },
{
    match &req.method {
        Method::Get | Method::Delete => match resolve(req, config) {
            Ok((_, path)) => Ok(Need::Contents(path)),
            Err(code) => Err(code),
        },
        Method::Head => match resolve(req, config) {
            Ok((_, path)) => Ok(Need::Length(path)),
            Err(code) => Err(code),
        },
        Method::Patch => match resolve(req, config) {
            Ok((_, path)) => Ok(Need::Existence(path)),
            Err(code) => Err(code),
        },
        Method::Post => match resolve(req, config) {
            Ok((_, path)) => Ok(Need::FreeName(path)),
            Err(code) => Err(code),
        },
        _ => Ok(Need::Nothing),
    }
}

/// An answer that rests on no change to the files.
pub open spec fn plain(answer: Result<ResponseView, StatusCode>) -> Result<
    OutcomeView,
    StatusCode,
> {
    match answer {
        Ok(response) => Ok(
            OutcomeView {
                effect: EffectView::Nothing,
                response,
                failure: StatusCode { code: INTERNAL_SERVER_ERROR },
            },
        ),
        Err(code) => Err(code),
    }
}

/// The outcome of a request by its method. A method other than GET, HEAD,
/// OPTIONS, TRACE, POST, PUT, PATCH and DELETE is not implemented. A fact
/// that is not the one that the method needs is a server error, and so is a
/// POST for which no free name was found.
pub open spec fn handled(route: Route, config: ServerConfig, req: RequestView, fact: FactView)
    -> Result<OutcomeView, StatusCode> {
    match req.method {
        MethodName::Get => match fact {
            FactView::Contents(contents) => plain(get_result(config, req, contents)),
            _ => Err(StatusCode { code: INTERNAL_SERVER_ERROR }),
        },
        MethodName::Options => plain(options_result(route, config, req)),
        MethodName::Head => match fact {
            FactView::Length(length) => plain(head_result(config, req, length)),
            _ => Err(StatusCode { code: INTERNAL_SERVER_ERROR }),
        },
        MethodName::Trace => plain(trace_result(config, req)),
        MethodName::Post => match fact {
            FactView::FreeName(Some(target)) => post_result(config, req, target),
            _ => Err(StatusCode { code: INTERNAL_SERVER_ERROR }),
        },
        MethodName::Put => put_result(config, req),
        MethodName::Patch => match fact {
            FactView::Existence(exists) => patch_result(config, req, exists),
            _ => Err(StatusCode { code: INTERNAL_SERVER_ERROR }),
        },
        MethodName::Delete => match fact {
            FactView::Contents(contents) => delete_result(config, req, contents),
            _ => Err(StatusCode { code: INTERNAL_SERVER_ERROR }),
        },
        _ => Err(StatusCode { code: NOT_IMPLEMENTED }),
    }
}

/// Wraps an answer that rests on no change to the files.
pub fn unchanged(answer: Result<Response, StatusCode>) -> (r: Result<Outcome, StatusCode>)
    ensures
        match (answer, r) {
            (Ok(response), Ok(outcome)) => outcome@ == (OutcomeView {
                effect: EffectView::Nothing,
                response: response@,
                failure: StatusCode { code: INTERNAL_SERVER_ERROR },
            }),
            (Err(code), Err(same)) => code == same,
            _ => false,
        },
{
    match answer {
        Ok(response) => Ok(
            Outcome {
                effect: Effect::Nothing,
                response,
                failure: StatusCode { code: INTERNAL_SERVER_ERROR },
            },
        ),
        Err(code) => Err(code),
    }
}

/// Answers a request by its method. `fact` is what was found out about the
/// file that `file_need` named.
pub fn handle_method(route: &Route, req: &Request, config: &ServerConfig, fact: Fact) -> (r:
    Result<Outcome, StatusCode>)
    ensures
        match r {
            Ok(outcome) => handled(*route, *config, req@, fact@) == Ok::<OutcomeView, StatusCode>(
                outcome@,
            ),
            Err(code) => handled(*route, *config, req@, fact@) == Err::<OutcomeView, StatusCode>(
                code,
            ),
        },
{
    match &req.method {
        Method::Get => match fact {
            Fact::Contents(contents) => unchanged(get(req, config, contents)),
            _ => Err(StatusCode { code: INTERNAL_SERVER_ERROR }),
        },
        Method::Options => unchanged(options(route, req, config)),
        Method::Head => match fact {
            Fact::Length(length) => unchanged(head(req, config, length)),
            _ => Err(StatusCode { code: INTERNAL_SERVER_ERROR }),
        },
        Method::Trace => unchanged(trace(req, config)),
        Method::Post => match fact {
            Fact::FreeName(Some(target)) => post(req, config, target),
            _ => Err(StatusCode { code: INTERNAL_SERVER_ERROR }),
        },
        Method::Put => put(req, config),
        Method::Patch => match fact {
            Fact::Existence(exists) => patch(req, config, exists),
            _ => Err(StatusCode { code: INTERNAL_SERVER_ERROR }),
        },
        Method::Delete => match fact {
            Fact::Contents(contents) => delete(req, config, contents),
            _ => Err(StatusCode { code: INTERNAL_SERVER_ERROR }),
        },
        _ => Err(StatusCode { code: NOT_IMPLEMENTED }),
    }
}

/// The token of a well-formed method holds no comma.
pub proof fn lemma_method_text_has_no_comma(method: MethodName)
    requires
        method.well_formed(),
    ensures
        free_of(method.text(), ','),
{
    reveal_strlit("OPTIONS");
    reveal_strlit("GET");
    reveal_strlit("POST");
    reveal_strlit("PUT");
    reveal_strlit("DELETE");
    reveal_strlit("HEAD");
    reveal_strlit("TRACE");
    reveal_strlit("CONNECT");
    reveal_strlit("PATCH");
    let text = method.text();
    assert forall|i: int| 0 <= i < text.len() implies #[trigger] text[i] != ',' by {
        match method {
            MethodName::Extension(token) => {
                assert(crate::server::protocol::is_tchar(token[i]));
            },
            _ => {},
        }
    }
}

/// What an `Allow` header says of a route, split at the commas, is the list
/// of the methods of the route: the header names the methods that the route
/// allows, and no others.
pub proof fn lemma_allow_lists_methods(route: Route)
    requires
        route.methods@.len() > 0,
        forall|i: int|
            0 <= i < route.methods@.len() ==> (#[trigger] method_names(
                route.methods@,
            )[i]).well_formed(),
    ensures
        split(allow_value(route), ", "@) == method_texts(route.methods@),
{
    reveal_strlit(", ");
    let texts = method_texts(route.methods@);
    assert forall|i: int| 0 <= i < texts.len() implies free_of(#[trigger] texts[i], ", "@[0]) by {
        assert(method_names(route.methods@)[i].well_formed());
        lemma_method_text_has_no_comma(route.methods@[i]@);
    }
    lemma_split_join(texts, ", "@);
}

/// The fields without the sensitive ones.
pub open spec fn without_sensitive(fields: Fields) -> Fields
    decreases fields.len(),
{
    if fields.len() == 0 {
        fields
    } else {
        let rest = without_sensitive(fields.drop_last());
        if is_sensitive(fields.last().0) {
            rest
        } else {
            rest.push(fields.last())
        }
    }
}

/// What is repeated of the fields of a request is what is repeated of its
/// fields without the cookies and authorizations; and of fields without
/// those, every field is repeated, as its name, a colon and a space, and its
/// value.
pub proof fn lemma_echo_strips_sensitive(fields: Fields)
    ensures
        echo_lines(fields) == echo_lines(without_sensitive(fields)),
        forall|i: int|
            0 <= i < without_sensitive(fields).len() ==> !is_sensitive(
                (#[trigger] without_sensitive(fields)[i]).0,
            ),
        echo_lines(fields).len() == without_sensitive(fields).len(),
        forall|i: int|
            0 <= i < without_sensitive(fields).len() ==> (#[trigger] echo_lines(fields)[i])
                == without_sensitive(fields)[i].0 + ": "@ + without_sensitive(fields)[i].1,
    decreases fields.len(),
{
    if fields.len() > 0 {
        let front = fields.drop_last();
        lemma_echo_strips_sensitive(front);
        let kept = without_sensitive(front);
        if !is_sensitive(fields.last().0) {
            let now = kept.push(fields.last());
            assert(now.drop_last() == kept);
            assert(now.last() == fields.last());
            assert(echo_lines(now) == echo_lines(kept).push(
                fields.last().0 + ": "@ + fields.last().1,
            ));
        }
    }
}

/// What TRACE repeats of a request does not change when cookies and
/// authorizations are taken out of the request.
pub proof fn lemma_trace_strips_sensitive(req: RequestView)
    ensures
        trace_echo(req) == trace_echo(
            RequestView {
                method: req.method,
                uri: req.uri,
                path: req.path,
                query: req.query,
                port: req.port,
                version: req.version,
                headers: without_sensitive(req.headers),
                body: req.body,
            },
        ),
{
    lemma_echo_strips_sensitive(req.headers);
}

} // verus!
