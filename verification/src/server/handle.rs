//! The way of a request through the server: from the bytes that came to the
//! route, and from the route to what answers it.

use crate::server::cgi::is_cgi_request;
use crate::server::config::{Handler, Route, ServerConfig};
use crate::server::methods::{respond, success};
use crate::server::protocol::{
    field, fields_fit, target_parts, Fields, Request, RequestView, Response, ResponseView, StatusCode, Version,
    METHOD_NOT_ALLOWED, NOT_FOUND,
};
use crate::server::requests::{assembled, get_request, path_of, request_fields, rooted_path};
use crate::server::protocol::{contents_of, reason_phrase};
use crate::server::responses::{
    error, error_response, file_name, reason_text, redirect, redirection,
};
use crate::server::methods::{allow_value, allows};
use crate::server::requests::selected;
use crate::server::routes::{redirect_pending, route_for, route_index};
use crate::text::{
    chars_match_at, chars_of, contains_seq, push_str, replace_first, replaced_first, rfind,
    starts_with, string_of, trim_end_matches, trimmed_end_matches,
};
use vstd::prelude::*;
use vstd::slice::slice_subrange;
use vstd::utf8::encode_utf8;

verus! {

/// A text without its first character.
pub open spec fn tail(s: Seq<char>) -> Seq<char> {
    if s.len() > 0 {
        s.skip(1)
    } else {
        s
    }
}

/// The head of a request with its path exchanged: the first occurrence of
/// the path, taken without a leading dot, gives way to the new path, taken
/// without its first character.
pub open spec fn path_replaced(head: Seq<char>, path: Seq<char>, default_path: Seq<char>) -> Seq<
    char,
> {
    let old = if path.len() > 0 && path[0] == '.' {
        path.skip(1)
    } else {
        path
    };
    replace_first(head, old, tail(default_path))
}

/// Exchanges the path in the head of a request.
pub fn replace_path_in_request(head: String, path: &str, default_path: &str) -> (r: String)
    ensures
        r@ == path_replaced(head@, path@, default_path@),
{
    let text = chars_of(head.as_str());
    let old = chars_of(path);
    let new = chars_of(default_path);
    let from: usize = if old.len() > 0 && old[0] == '.' {
        1
    } else {
        0
    };
    let skip: usize = if new.len() > 0 {
        1
    } else {
        0
    };
    let pat = slice_subrange(old.as_slice(), from, old.len());
    let to = slice_subrange(new.as_slice(), skip, new.len());
    proof {
        assert(to@ == tail(default_path@));
        assert(pat@ == if path@.len() > 0 && path@[0] == '.' {
            path@.skip(1)
        } else {
            path@
        });
    }
    let out = replaced_first(text.as_slice(), pat, to);
    string_of(out.as_slice())
}

/// The name of an entry below a directory: the entry without the directory
/// and the slash after it, or the whole entry where it does not begin so.
pub open spec fn relative(dir: Seq<char>, entry: Seq<char>) -> Seq<char> {
    let base = dir + seq!['/'];
    if starts_with(entry, base) {
        entry.skip(base.len() as int)
    } else {
        entry
    }
}

/// Where the link of an entry leads: a slash, the directory without slashes
/// at its end, a slash, the name of the entry below the directory.
pub open spec fn link(path: Seq<char>, entry: Seq<char>) -> Seq<char> {
    let dir = trim_end_matches(path, '/');
    seq!['/'] + dir + seq!['/'] + relative(dir, entry)
}

/// An anchor: a link and its text.
pub open spec fn anchor(href: Seq<char>, text: Seq<char>) -> Seq<char> {
    "<a href=\""@ + href + "\">"@ + text + "</a>"@
}

/// The item that lists an entry: an anchor that leads to the entry and
/// shows the last segment of its path.
pub open spec fn item(path: Seq<char>, entry: Seq<char>) -> Seq<char> {
    "<li>"@ + anchor(link(path, entry), file_name(entry)) + "</li>"@
}

/// The items of the entries, in order.
pub open spec fn items(path: Seq<char>, entries: Seq<Seq<char>>) -> Seq<char>
    decreases entries.len(),
{
    if entries.len() == 0 {
        Seq::empty()
    } else {
        items(path, entries.drop_last()) + item(path, entries.last())
    }
}

/// The page that lists a directory.
pub open spec fn listing(path: Seq<char>, entries: Seq<Seq<char>>) -> Seq<char> {
    "<html><body><ul>"@ + items(path, entries) + "</ul></body></html>"@
}

/// The item of an entry is a list item that holds an anchor; the link of the
/// anchor begins with a slash, and its text is the last segment of the
/// path of the entry.
pub proof fn lemma_item_links_entry(path: Seq<char>, entry: Seq<char>)
    ensures
        item(path, entry) == "<li>"@ + anchor(link(path, entry), file_name(entry)) + "</li>"@,
        link(path, entry).len() > 0,
        link(path, entry)[0] == '/',
{
}

/// Where the link of an entry leads.
pub fn entry_link(path: &str, entry: &str) -> (href: Vec<char>)
    ensures
        href@ == link(path@, entry@),
{
    let chars = chars_of(path);
    let end: usize = trimmed_end_matches(chars.as_slice(), '/', chars.len());
    let dir = slice_subrange(chars.as_slice(), 0, end);
    assert(dir@ == trim_end_matches(path@, '/'));
    let whole = chars_of(entry);
    let mut base: Vec<char> = Vec::new();
    base.extend_from_slice(dir);
    base.push('/');
    assert(base@ == dir@ + seq!['/']);
    let from: usize = if chars_match_at(whole.as_slice(), base.as_slice(), 0) {
        base.len()
    } else {
        0
    };
    let rel = slice_subrange(whole.as_slice(), from, whole.len());
    assert(rel@ == relative(dir@, entry@));
    let mut href: Vec<char> = Vec::new();
    href.push('/');
    href.extend_from_slice(dir);
    href.push('/');
    href.extend_from_slice(rel);
    assert(href@ == seq!['/'] + dir@ + seq!['/'] + rel@);
    href
}

/// The last segment of the path of an entry.
pub fn entry_name(entry: &str) -> (name: Vec<char>)
    ensures
        name@ == file_name(entry@),
{
    let whole = chars_of(entry);
    let start: usize = match rfind(whole.as_slice(), '/', whole.len()) {
        Some(i) => i + 1,
        None => 0,
    };
    let mut name: Vec<char> = Vec::new();
    name.extend_from_slice(slice_subrange(whole.as_slice(), start, whole.len()));
    assert(name@ == whole@.subrange(start as int, whole.len() as int));
    name
}

/// Appends an anchor.
pub fn push_anchor(out: &mut Vec<char>, href: &Vec<char>, text: &Vec<char>)
    ensures
        final(out)@ == old(out)@ + anchor(href@, text@),
{
    let ghost before = out@;
    push_str(out, "<a href=\"");
    out.extend_from_slice(href.as_slice());
    push_str(out, "\">");
    out.extend_from_slice(text.as_slice());
    push_str(out, "</a>");
    assert(out@ == before + ("<a href=\""@ + href@ + "\">"@ + text@ + "</a>"@));
}

/// Appends the item of an entry.
pub fn push_item(out: &mut Vec<char>, path: &str, entry: &str)
    ensures
        final(out)@ == old(out)@ + item(path@, entry@),
{
    let ghost before = out@;
    let href = entry_link(path, entry);
    let name = entry_name(entry);
    push_str(out, "<li>");
    push_anchor(out, &href, &name);
    push_str(out, "</li>");
    assert(out@ == before + ("<li>"@ + anchor(href@, name@) + "</li>"@));
}

/// The directory that is read for a listing: the path without the slashes
/// that end it.
pub fn directory_path(path: &str) -> (dir: String)
    ensures
        dir@ == trim_end_matches(path@, '/'),
{
    let chars = chars_of(path);
    let end: usize = trimmed_end_matches(chars.as_slice(), '/', chars.len());
    let dir = slice_subrange(chars.as_slice(), 0, end);
    string_of(dir)
}

/// The answer that lists a directory; a directory that could not be read is
/// not found.
pub open spec fn listed(config: ServerConfig, path: Seq<char>, entries: Option<Seq<Seq<char>>>)
    -> Result<ResponseView, StatusCode> {
    match entries {
        None => Err(StatusCode { code: NOT_FOUND }),
        Some(found) => success(
            config.host@,
            Version::Http11,
            "text/html"@,
            encode_utf8(listing(path, found)).len(),
            Seq::empty(),
            Seq::empty(),
            encode_utf8(listing(path, found)),
        ),
    }
}

/// Lists a directory. `entries` are the paths of what the directory holds,
/// or nothing where it could not be read.
pub fn serve_directory_contents(
    config: &ServerConfig,
    path: &str,
    entries: Option<&Vec<String>>,
) -> (r: Result<Response, StatusCode>)
    ensures
        match r {
            Ok(response) => listed(*config, path@, entries.deep_view()) == Ok::<
                ResponseView,
                StatusCode,
            >(response@),
            Err(code) => listed(*config, path@, entries.deep_view()) == Err::<
                ResponseView,
                StatusCode,
            >(code),
        },
{
    let entries = match entries {
        Some(found) => found,
        None => {
            return Err(StatusCode { code: NOT_FOUND });
        },
    };
    let ghost all = entries.deep_view();
    let mut out: Vec<char> = Vec::new();
    push_str(&mut out, "<html><body><ul>");
    let ghost first = out@;
    let mut i: usize = 0;
    assert(items(path@, all.take(0)) == Seq::<char>::empty());
    while i < entries.len()
        invariant
            i <= entries.len(),
            all == entries.deep_view(),
            out@ == first + items(path@, all.take(i as int)),
        decreases entries.len() - i,
    {
        proof {
            assert(all.take(i + 1).drop_last() == all.take(i as int));
            assert(all.take(i + 1).last() == entries[i as int]@);
        }
        push_item(&mut out, path, entries[i].as_str());
        i += 1;
    }
    proof {
        assert(all.take(entries.len() as int) == all);
    }
    push_str(&mut out, "</ul></body></html>");
    assert(out@ == listing(path@, all));
    let page = string_of(out.as_slice());
    let mut body: Vec<u8> = Vec::new();
    body.extend_from_slice(page.as_str().as_bytes());
    assert(body@ == encode_utf8(listing(path@, all)));
    let none: Vec<(String, String)> = Vec::new();
    proof {
        assert(none.deep_view() == Fields::empty());
        assert(crate::server::methods::echoed(Fields::empty()) == Fields::empty());
    }
    respond(config.host, Version::Http11, "text/html", body.len() as u64, None, &none, body)
}

/// What the server does next for a request that came in.
#[derive(Debug, PartialEq, Eq)]
pub enum Step {
    /// Send the response.
    Respond(Response),
    /// Report the status with `failure`; `allow` holds the methods that the
    /// route allows where the method of the request is not among them.
    Fail { code: StatusCode, allow: Option<String> },
    /// Let the handler of the route answer the request.
    Handle { handler: Handler, request: Request },
    /// Find out whether the path is a directory, and go on with
    /// `handle_resolved`.
    Inspect { request: Request, route: usize, path: String },
}

/// A step as specifications see it.
pub enum StepView {
    Respond(ResponseView),
    Fail { code: StatusCode, allow: Option<Seq<char>> },
    Handle { handler: Handler, request: RequestView },
    Inspect { request: RequestView, route: int, path: Seq<char> },
}

impl View for Step {
    type V = StepView;

    open spec fn view(&self) -> StepView {
        match self {
            Step::Respond(response) => StepView::Respond(response@),
            Step::Fail { code, allow } => StepView::Fail {
                code: *code,
                allow: match allow {
                    Some(text) => Some(text@),
                    None => None,
                },
            },
            Step::Handle { handler, request } => StepView::Handle {
                handler: *handler,
                request: request@,
            },
            Step::Inspect { request, route, path } => StepView::Inspect {
                request: request@,
                route: *route as int,
                path: path@,
            },
        }
    }
}

/// The step that follows the reading of a request. A request that could not
/// be read is reported. A request without a route is reported, or
/// redirected where the route says so. A route with a handler hands the
/// request to it; any other route names the file to look at.
pub open spec fn stepped(config: ServerConfig, parsed: Result<RequestView, StatusCode>)
    -> StepView {
    match parsed {
        Err(code) => StepView::Fail { code, allow: None },
        Ok(req) => match route_for(config, req.path, req.method) {
            Err((code, text)) => if code.redirects() {
                StepView::Respond(redirection(code, req.version, text))
            } else if code.code == METHOD_NOT_ALLOWED {
                StepView::Fail { code, allow: Some(text) }
            } else {
                StepView::Fail { code, allow: None }
            },
            Ok(i) => match config.routes@[i].handler {
                Some(handler) => StepView::Handle { handler, request: req },
                None => StepView::Inspect {
                    request: req,
                    route: i,
                    path: rooted_path(config.routes@[i], req.path),
                },
            },
        },
    }
}

/// The step that follows the reading of a request.
pub fn route_request(config: &ServerConfig, parsed: Result<Request, StatusCode>) -> (step: Step)
    ensures
        step@ == stepped(
            *config,
            match parsed {
                Ok(request) => Ok(request@),
                Err(code) => Err(code),
            },
        ),
        step matches Step::Inspect { route, .. } ==> route < config.routes.len(),
{
    let request = match parsed {
        Ok(request) => request,
        Err(code) => {
            return Step::Fail { code, allow: None };
        },
    };
    match route_index(&request, config) {
        Err((code, text)) => {
            if code.is_redirection() {
                Step::Respond(redirect(code, config, request.version, text))
            } else if code.code == METHOD_NOT_ALLOWED {
                Step::Fail { code, allow: Some(text) }
            } else {
                Step::Fail { code, allow: None }
            }
        },
        Ok(i) => match config.routes[i].handler {
            Some(handler) => Step::Handle { handler, request },
            None => {
                let path = crate::server::requests::add_root_to_path(
                    &config.routes[i],
                    request.path.as_str(),
                );
                Step::Inspect { request, route: i, path }
            },
        },
    }
}

/// The first step for the head of a request and the bytes that came after
/// it.
pub fn handle_connection(config: &ServerConfig, request_parts: (String, Vec<u8>)) -> (step: Step)
    ensures
        step@ == stepped(
            *config,
            assembled(
                config.body_size_limit as nat,
                request_parts.0@,
                request_parts.1@,
                target_parts(path_of(request_parts.0@)),
                fields_fit(request_fields(request_parts.0@)),
            ),
        ),
        step matches Step::Inspect { route, .. } ==> route < config.routes.len(),
{
    let parsed = get_request(config, request_parts);
    route_request(config, parsed)
}

/// A response with the methods that a route allows added to it.
pub open spec fn with_allow(response: ResponseView, allow: Option<Seq<char>>) -> ResponseView {
    match allow {
        Some(text) => ResponseView {
            status: response.status,
            version: response.version,
            headers: response.headers.push(("allow"@, text)),
            body: response.body,
        },
        None => response,
    }
}

/// The response that reports a status, with the methods that the route
/// allows where they are given. `page` is what the file of
/// `error_page_path` holds, where there is such a file.
pub fn failure(
    code: StatusCode,
    allow: Option<String>,
    config: &ServerConfig,
    page: Option<Vec<u8>>,
) -> (r: Response)
    ensures
        r@ == with_allow(
            error_response(code, contents_of(page), reason_text(reason_phrase(code.code))),
            match allow {
                Some(text) => Some(text@),
                None => None,
            },
        ),
{
    let mut response = error(code, config, page);
    match allow {
        Some(text) => {
            let ghost before = response@.headers;
            response.headers.push((String::from_str("allow"), text));
            assert(response@.headers == before.push(("allow"@, text@)));
        },
        None => {},
    }
    response
}

/// What the server does for a request once its file is known.
#[derive(Debug, PartialEq, Eq)]
pub enum Next {
    /// Report the status.
    Fail(StatusCode),
    /// Take up the request again with this head, once.
    Reenter(String),
    /// List the directory with `serve_directory_contents`.
    List(String),
    /// Run the script: `prepare_cgi_script`, then `execute_cgi_script`.
    Script,
    /// Answer by the method: `file_need`, then `handle_method`.
    Method,
}

/// What follows as specifications see it.
pub enum NextView {
    Fail(StatusCode),
    Reenter(Seq<char>),
    List(Seq<char>),
    Script,
    Method,
}

impl View for Next {
    type V = NextView;

    open spec fn view(&self) -> NextView {
        match self {
            Next::Fail(code) => NextView::Fail(*code),
            Next::Reenter(head) => NextView::Reenter(head@),
            Next::List(path) => NextView::List(path@),
            Next::Script => NextView::Script,
            Next::Method => NextView::Method,
        }
    }
}

/// The head of a request for the default file of a directory: the path of
/// the request gives way to the path of the route, a slash and the file.
pub open spec fn default_head(head: Seq<char>, route: Route, path: Seq<char>, file: Seq<char>)
    -> Seq<char> {
    path_replaced(head, path, seq!['.'] + route.url_path@ + seq!['/'] + file)
}

/// What follows once it is known whether the file of a request is a
/// directory. A directory under a route with settings is answered by its
/// default file, for which the request is taken up again, but once only;
/// else it is listed where the route lets it be listed, and not found where
/// not. Anything else is a script where its path says so, and is answered by
/// the method where not.
pub open spec fn followed(
    route: Route,
    req: RequestView,
    path: Seq<char>,
    head: Seq<char>,
    is_dir: bool,
    again: bool,
) -> NextView {
    if is_dir && route.settings is Some {
        let settings = route.settings->0;
        if settings.default_if_url_is_dir is Some && !again {
            NextView::Reenter(
                default_head(head, route, req.path, settings.default_if_url_is_dir->0@),
            )
        } else if settings.list_directory {
            NextView::List(path)
        } else {
            NextView::Fail(StatusCode { code: NOT_FOUND })
        }
    } else if contains_seq(path, "/cgi/"@) {
        NextView::Script
    } else {
        NextView::Method
    }
}

/// What follows once it is known whether the file of a request is a
/// directory. `again` says that the request was taken up again already.
pub fn handle_resolved(
    route: &Route,
    request: &Request,
    path: &str,
    head: &str,
    is_dir: bool,
    again: bool,
) -> (next: Next)
    ensures
        next@ == followed(*route, request@, path@, head@, is_dir, again),
{
    if is_dir {
        match &route.settings {
            Some(settings) => {
                match settings.default_if_url_is_dir {
                    Some(file) => {
                        if !again {
                            let mut target = String::from_str(".");
                            target.append(route.url_path);
                            target.append("/");
                            target.append(file);
                            proof {
                                reveal_strlit(".");
                                reveal_strlit("/");
                                assert("."@ == seq!['.']);
                                assert("/"@ == seq!['/']);
                            }
                            return Next::Reenter(
                                replace_path_in_request(
                                    String::from_str(head),
                                    request.path.as_str(),
                                    target.as_str(),
                                ),
                            );
                        }
                    },
                    None => {},
                }
                return if settings.list_directory {
                    Next::List(String::from_str(path))
                } else {
                    Next::Fail(StatusCode { code: NOT_FOUND })
                };
            },
            None => {},
        }
    }
    if is_cgi_request(path) {
        Next::Script
    } else {
        Next::Method
    }
}

/// A request whose method the route that was selected for it does not
/// allow is reported with status 405, and the response names, in a field
/// `allow`, the methods that the route allows.
pub proof fn lemma_method_not_allowed(
    config: ServerConfig,
    req: RequestView,
    i: int,
    page: Option<Seq<u8>>,
    reason: Seq<char>,
)
    requires
        selected(config.routes@, req.path) == Some(i),
        !redirect_pending(config.routes@[i], req.path),
        !allows(config.routes@[i], req.method),
    ensures
        stepped(config, Ok(req)) == (StepView::Fail {
            code: StatusCode { code: METHOD_NOT_ALLOWED },
            allow: Some(allow_value(config.routes@[i])),
        }),
        with_allow(
            error_response(StatusCode { code: METHOD_NOT_ALLOWED }, page, reason),
            Some(allow_value(config.routes@[i])),
        ).status.code == 405,
        field(
            with_allow(
                error_response(StatusCode { code: METHOD_NOT_ALLOWED }, page, reason),
                Some(allow_value(config.routes@[i])),
            ).headers,
            "allow"@,
        ) == Some(allow_value(config.routes@[i])),
{
    reveal_strlit("allow");
    reveal_strlit("content-type");
    reveal_strlit("content-length");
    let response = with_allow(
        error_response(StatusCode { code: METHOD_NOT_ALLOWED }, page, reason),
        Some(allow_value(config.routes@[i])),
    );
    assert("content-type"@.len() != "allow"@.len());
    assert("content-length"@.len() != "allow"@.len());
    assert(response.headers.len() == 3);
    assert(response.headers[2] == ("allow"@, allow_value(config.routes@[i])));
    assert(crate::server::protocol::field_from(response.headers, "allow"@, 2) == Some(
        allow_value(config.routes@[i]),
    ));
    assert(crate::server::protocol::field_from(response.headers, "allow"@, 1)
        == crate::server::protocol::field_from(response.headers, "allow"@, 2));
}

} // verus!
