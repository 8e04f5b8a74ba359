//! The handlers that show how a session is kept in a cookie.

use crate::server::config::{Handler, ServerConfig};
use crate::server::methods::{echoed, respond, shown, success, value_text};
use crate::server::protocol::{
    built, contents_of, Builder, Fields, Request, RequestView, Response, ResponseView, StatusCode,
    NOT_FOUND, OK, UNAUTHORIZED,
};
use crate::text::{lowercase, str_equal, to_lower};
use vstd::prelude::*;

verus! {

/// Adds the field that sets a cookie for an hour.
pub fn set_cookie(resp: Builder, value: &str) -> (r: Builder)
    requires
        resp.well_formed(),
    ensures
        r.well_formed(),
        r.status == resp.status,
        r.version == resp.version,
        r.fields() == resp.fields().push(("set-cookie"@, value@ + "; path=/; Max-Age=3600"@)),
{
    let mut text = String::from_str(value);
    text.append("; path=/; Max-Age=3600");
    let mut r = resp;
    r.header("set-cookie", text.as_str());
    r
}

/// Adds the field that removes a cookie: it sets the cookie with a time
/// that is long past.
pub fn remove_cookie(resp: Builder, value: &str) -> (r: Builder)
    requires
        resp.well_formed(),
    ensures
        r.well_formed(),
        r.status == resp.status,
        r.version == resp.version,
        r.fields() == resp.fields().push(
            ("set-cookie"@, value@ + "; path=/; expires=Thu, 01 Jan 1970 00:00:00 GMT"@),
        ),
{
    let mut text = String::from_str(value);
    text.append("; path=/; expires=Thu, 01 Jan 1970 00:00:00 GMT");
    let mut r = resp;
    r.header("set-cookie", text.as_str());
    r
}

/// Adds a cookie to the fields.
pub fn cookie(resp: Builder, value: &str) -> (r: Builder)
    requires
        resp.well_formed(),
    ensures
        r.well_formed(),
        r.status == resp.status,
        r.version == resp.version,
        r.fields() == resp.fields().push(("cookie"@, value@)),
{
    let mut r = resp;
    r.header("cookie", value);
    r
}

/// The first cookie at or after index `from` whose value, as text, is
/// `value`.
pub open spec fn cookie_from(fields: Fields, value: Seq<char>, from: int) -> Option<Seq<char>>
    decreases fields.len() - from,
{
    if from < 0 || from >= fields.len() {
        None
    } else if fields[from].0 == "cookie"@ && shown(fields[from].1) == value {
        Some(fields[from].1)
    } else {
        cookie_from(fields, value, from + 1)
    }
}

/// The cookie of a request whose value is `value`.
pub fn get_cookie<'a>(req: &'a Request, value: &str) -> (r: Option<&'a String>)
    ensures
        r.deep_view() == cookie_from(req@.headers, value@, 0),
{
    let ghost fields = req.headers.deep_view();
    let mut i: usize = 0;
    while i < req.headers.len()
        invariant
            i <= req.headers.len(),
            fields == req.headers.deep_view(),
            cookie_from(fields, value@, 0) == cookie_from(fields, value@, i as int),
        decreases req.headers.len() - i,
    {
        if str_equal(req.headers[i].0.as_str(), "cookie") {
            let text = value_text(req.headers[i].1.as_str());
            if str_equal(text.as_str(), value) {
                return Some(&req.headers[i].1);
            }
        }
        i += 1;
    }
    None
}

/// Some field of the request says, whatever the case of its letters,
/// `session=cookie`.
pub open spec fn has_session(fields: Fields) -> bool {
    exists|i: int|
        0 <= i < fields.len() && to_lower(shown(#[trigger] fields[i].1)) == "session=cookie"@
}

/// Some field of the request says `session=cookie`.
pub fn session_is_set(req: &Request) -> (r: bool)
    ensures
        r == has_session(req@.headers),
{
    let ghost fields = req.headers.deep_view();
    let mut i: usize = 0;
    while i < req.headers.len()
        invariant
            i <= req.headers.len(),
            fields == req.headers.deep_view(),
            forall|j: int|
                0 <= j < i ==> to_lower(shown(#[trigger] fields[j].1)) != "session=cookie"@,
        decreases req.headers.len() - i,
    {
        let text = value_text(req.headers[i].1.as_str());
        let low = lowercase(text.as_str());
        if str_equal(low.as_str(), "session=cookie") {
            assert(to_lower(shown(fields[i as int].1)) == "session=cookie"@);
            return true;
        }
        i += 1;
    }
    false
}

/// The answer that sets the session cookie, or removes it where the request
/// has it.
pub open spec fn update_result(config: ServerConfig, req: RequestView) -> Result<
    ResponseView,
    StatusCode,
> {
    let value = if has_session(req.headers) {
        "session=cookie"@ + "; path=/; expires=Thu, 01 Jan 1970 00:00:00 GMT"@
    } else {
        "session=cookie"@ + "; path=/; Max-Age=3600"@
    };
    built(OK, req.version, seq![("set-cookie"@, value), ("host"@, config.host@)], Seq::empty())
}

/// Sets the session cookie, or removes it where the request has it.
pub fn update_cookie(req: &Request, conf: &ServerConfig) -> (r: Result<Response, StatusCode>)
    ensures
        match r {
            Ok(response) => update_result(*conf, req@) == Ok::<ResponseView, StatusCode>(
                response@,
            ),
            Err(code) => update_result(*conf, req@) == Err::<ResponseView, StatusCode>(code),
        },
{
    let builder = Builder::new(req.version);
    let mut builder = if session_is_set(req) {
        remove_cookie(builder, "session=cookie")
    } else {
        set_cookie(builder, "session=cookie")
    };
    builder.header("host", conf.host);
    proof {
        let value = if has_session(req@.headers) {
            "session=cookie"@ + "; path=/; expires=Thu, 01 Jan 1970 00:00:00 GMT"@
        } else {
            "session=cookie"@ + "; path=/; Max-Age=3600"@
        };
        assert(builder.fields() == seq![("set-cookie"@, value), ("host"@, conf.host@)]);
    }
    let body: Vec<u8> = Vec::new();
    assert(body@ == Seq::<u8>::empty());
    builder.body(body)
}

/// The answer that repeats the session cookie; a request without it is not
/// authorized.
pub open spec fn validate_result(config: ServerConfig, req: RequestView) -> Result<
    ResponseView,
    StatusCode,
> {
    match cookie_from(req.headers, "session=cookie"@, 0) {
        None => Err(StatusCode { code: UNAUTHORIZED }),
        Some(value) => built(
            OK,
            req.version,
            seq![("cookie"@, shown(value)), ("host"@, config.host@)],
            Seq::empty(),
        ),
    }
}

/// Repeats the session cookie of a request.
pub fn validate_cookie(req: &Request, conf: &ServerConfig) -> (r: Result<Response, StatusCode>)
    ensures
        match r {
            Ok(response) => validate_result(*conf, req@) == Ok::<ResponseView, StatusCode>(
                response@,
            ),
            Err(code) => validate_result(*conf, req@) == Err::<ResponseView, StatusCode>(code),
        },
{
    let value = match get_cookie(req, "session=cookie") {
        Some(value) => value_text(value.as_str()),
        None => {
            return Err(StatusCode { code: UNAUTHORIZED });
        },
    };
    let builder = Builder::new(req.version);
    let mut builder = cookie(builder, value.as_str());
    builder.header("host", conf.host);
    proof {
        assert(builder.fields() == seq![("cookie"@, value@), ("host"@, conf.host@)]);
    }
    let body: Vec<u8> = Vec::new();
    assert(body@ == Seq::<u8>::empty());
    builder.body(body)
}

/// The answer that shows the page about cookies; without the page there is
/// nothing to be found.
pub open spec fn demo_result(config: ServerConfig, req: RequestView, page: Option<Seq<u8>>)
    -> Result<ResponseView, StatusCode> {
    match page {
        None => Err(StatusCode { code: NOT_FOUND }),
        Some(bytes) => success(
            config.host@,
            req.version,
            "text/html"@,
            bytes.len(),
            Seq::empty(),
            echoed(req.headers),
            bytes,
        ),
    }
}

/// Shows the page about cookies. `page` is what reading the file of
/// `demo_page` gave.
pub fn cookie_demo(req: &Request, config: &ServerConfig, page: Option<Vec<u8>>) -> (r: Result<
    Response,
    StatusCode,
>)
    ensures
        match r {
            Ok(response) => demo_result(*config, req@, contents_of(page)) == Ok::<
                ResponseView,
                StatusCode,
            >(response@),
            Err(code) => demo_result(*config, req@, contents_of(page)) == Err::<
                ResponseView,
                StatusCode,
            >(code),
        },
{
    match page {
        None => Err(StatusCode { code: NOT_FOUND }),
        Some(bytes) => respond(
            config.host,
            req.version,
            "text/html",
            bytes.len() as u64,
            None,
            &req.headers,
            bytes,
        ),
    }
}

/// The file that holds the page about cookies.
pub fn demo_page() -> (path: &'static str)
    ensures
        path@ == "./assets/cookie-demo.html"@,
{
    "./assets/cookie-demo.html"
}

/// The answer of a handler.
pub open spec fn handler_result(
    handler: Handler,
    config: ServerConfig,
    req: RequestView,
    page: Option<Seq<u8>>,
) -> Result<ResponseView, StatusCode> {
    match handler {
        Handler::UpdateCookie => update_result(config, req),
        Handler::ValidateCookie => validate_result(config, req),
        Handler::CookieDemo => demo_result(config, req, page),
    }
}

/// Lets a handler answer a request. `page` is what reading the file of
/// `demo_page` gave, which the handler `CookieDemo` shows.
pub fn run_handler(
    handler: Handler,
    req: &Request,
    config: &ServerConfig,
    page: Option<Vec<u8>>,
) -> (r: Result<Response, StatusCode>)
    ensures
        match r {
            Ok(response) => handler_result(handler, *config, req@, contents_of(page)) == Ok::<
                ResponseView,
                StatusCode,
            >(response@),
            Err(code) => handler_result(handler, *config, req@, contents_of(page)) == Err::<
                ResponseView,
                StatusCode,
            >(code),
        },
{
    match handler {
        Handler::UpdateCookie => update_cookie(req, config),
        Handler::ValidateCookie => validate_cookie(req, config),
        Handler::CookieDemo => cookie_demo(req, config, page),
    }
}

} // verus!
