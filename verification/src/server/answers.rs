//! What is owed to requests that are in order: the answer to a GET for a
//! file that is there, the file that a POST writes, and the answer and the
//! environment of a script.

use crate::server::cgi::{
    cgi_result, environment, http_variables, interpreter, letter_or_digit, planned, program,
    request_variables, run_end, script_extension, script_path, Cgi,
};
use crate::server::chunks::{encode_chunked, joined, lemma_chunked_round_trip, writable};
use crate::server::config::{Route, ServerConfig};
use crate::server::effects::{EffectView, FactView};
use crate::server::handle::{followed, stepped, NextView, StepView};
use crate::server::routes::route_for;
use crate::server::methods::{
    echoed, get_result, handled, resolved, shown, success, success_fields,
};
use crate::server::protocol::{
    field, field_from, fields_accepted, fields_named, is_header_name, is_header_value,
    is_value_char, Fields, MethodName, RequestView, StatusCode, Version, OK,
};
use crate::server::requests::{assembled, chunked, request_fields, rooted_path};
use crate::server::responses::{content_type_of, media_type};
use crate::text::{
    contains_seq, decimal, lemma_decimal, lemma_rfind_char, rfind_char, ws_rskip,
};
use vstd::prelude::*;
use vstd::utf8::{decode_utf8, valid_utf8};

verus! {

/// The names of the fields of every successful response are header names.
pub proof fn lemma_success_names()
    ensures
        is_header_name("host"@),
        is_header_name("content-type"@),
        is_header_name("content-length"@),
{
    reveal_strlit("host");
    reveal_strlit("content-type");
    reveal_strlit("content-length");
}

/// A number in decimal is a header value.
pub proof fn lemma_decimal_is_value(n: nat)
    ensures
        is_header_value(decimal(n)),
{
    lemma_decimal(n);
    assert forall|i: int| 0 <= i < decimal(n).len() implies is_value_char(
        #[trigger] decimal(n)[i],
    ) by {
        assert(crate::text::is_digit(decimal(n)[i]));
    }
}

/// Every media type is a header value.
pub proof fn lemma_media_type_is_value(ext: Seq<char>)
    ensures
        is_header_value(media_type(ext)),
{
    reveal_strlit("text/html");
    reveal_strlit("text/css");
    reveal_strlit("text/javascript");
    reveal_strlit("application/json");
    reveal_strlit("text/plain");
    reveal_strlit("application/xml");
    reveal_strlit("image/png");
    reveal_strlit("image/jpeg");
    reveal_strlit("image/gif");
    reveal_strlit("image/svg+xml");
    reveal_strlit("image/x-icon");
    reveal_strlit("application/pdf");
    reveal_strlit("application/octet-stream");
}

/// The fields of one name among accepted fields are accepted.
pub proof fn lemma_named_fields_accepted(fields: Fields, name: Seq<char>)
    requires
        fields_accepted(fields),
    ensures
        fields_accepted(fields_named(fields, name)),
    decreases fields.len(),
{
    if fields.len() > 0 {
        let front = fields.drop_last();
        assert forall|i: int| 0 <= i < front.len() implies is_header_name((#[trigger] front[i]).0)
            && is_header_value(front[i].1) by {
            assert(front[i] == fields[i]);
        }
        lemma_named_fields_accepted(front, name);
        if fields.last().0 == name {
            crate::server::protocol::lemma_fields_accepted_push(
                fields_named(front, name),
                fields.last().0,
                fields.last().1,
            );
        }
    }
}

/// A successful response is built where the host and the type of the
/// content are header values and the repeated fields are accepted: it has
/// status 200, the version and the body that were given, and the type and
/// the length among its fields.
pub proof fn lemma_success_is_owed(
    host: Seq<char>,
    version: Version,
    content_type: Seq<char>,
    length: nat,
    repeated: Fields,
    body: Seq<u8>,
)
    requires
        is_header_value(host),
        is_header_value(content_type),
        fields_accepted(repeated),
    ensures
        success(host, version, content_type, length, Seq::empty(), repeated, body) is Ok,
        ({
            let r = success(
                host,
                version,
                content_type,
                length,
                Seq::empty(),
                repeated,
                body,
            ).unwrap();
            &&& r.status.code == OK
            &&& r.version == version
            &&& r.body == body
            &&& field(r.headers, "content-type"@) == Some(content_type)
            &&& field(r.headers, "content-length"@) == Some(decimal(length))
        }),
{
    lemma_success_names();
    lemma_decimal_is_value(length);
    reveal_strlit("host");
    reveal_strlit("content-type");
    reveal_strlit("content-length");
    let first = success_fields(host, content_type, length);
    let all = first + Seq::<(Seq<char>, Seq<char>)>::empty() + repeated;
    assert forall|i: int| 0 <= i < all.len() implies is_header_name((#[trigger] all[i]).0)
        && is_header_value(all[i].1) by {
        if i >= 3 {
            assert(all[i] == repeated[i - 3]);
        }
    }
    assert(all[0].0 == "host"@);
    assert(all[1] == ("content-type"@, content_type));
    assert(all[2] == ("content-length"@, decimal(length)));
    assert("host"@.len() != "content-type"@.len());
    assert("host"@.len() != "content-length"@.len());
    assert("content-type"@.len() != "content-length"@.len());
    assert(field_from(all, "content-type"@, 1) == Some(content_type));
    assert(field_from(all, "content-length"@, 2) == Some(decimal(length)));
    assert(field_from(all, "content-length"@, 1) == Some(decimal(length)));
}

/// A GET for a file that was read, under a route that serves it, is
/// answered with status 200, the length of the file as its
/// `content-length`, and the bytes of the file as its body.
pub proof fn lemma_get_delivers_file(config: ServerConfig, req: RequestView, bytes: Seq<u8>)
    requires
        resolved(config, req) is Ok,
        is_header_value(config.host@),
        fields_accepted(req.headers),
    ensures
        get_result(config, req, Some(bytes)) is Ok,
        ({
            let r = get_result(config, req, Some(bytes)).unwrap();
            &&& r.status.code == OK
            &&& r.version == req.version
            &&& r.body == bytes
            &&& field(r.headers, "content-length"@) == Some(decimal(bytes.len()))
        }),
{
    let path = resolved(config, req).unwrap().1;
    lemma_media_type_is_value(crate::text::to_lower(crate::server::responses::extension(path)));
    lemma_named_fields_accepted(req.headers, "transfer-encoding"@);
    lemma_success_is_owed(
        config.host@,
        req.version,
        content_type_of(path),
        bytes.len(),
        echoed(req.headers),
        bytes,
    );
}

/// A GET that is handled with the bytes of its file has no effect on the
/// files, and its answer is the one that delivers the file.
pub proof fn lemma_get_is_handled(
    route: Route,
    config: ServerConfig,
    req: RequestView,
    bytes: Seq<u8>,
)
    requires
        req.method == MethodName::Get,
        resolved(config, req) is Ok,
        is_header_value(config.host@),
        fields_accepted(req.headers),
    ensures
        handled(route, config, req, FactView::Contents(Some(bytes))) is Ok,
        ({
            let outcome = handled(route, config, req, FactView::Contents(Some(bytes))).unwrap();
            &&& outcome.effect == EffectView::Nothing
            &&& outcome.response.status.code == OK
            &&& outcome.response.body == bytes
            &&& field(outcome.response.headers, "content-length"@) == Some(
                decimal(bytes.len()),
            )
        }),
{
    lemma_get_delivers_file(config, req, bytes);
}

/// The way of a request for a file: where a route without a handler serves
/// the request, the file under the root of the route is looked at; where
/// that file is no directory, the request is a script where the path of
/// the file holds `/cgi/`, and is answered by its method where not. The
/// method then deals with that same file.
pub proof fn lemma_way_to_the_file(
    config: ServerConfig,
    req: RequestView,
    head: Seq<char>,
    again: bool,
)
    requires
        route_for(config, req.path, req.method) is Ok,
        config.routes@[route_for(config, req.path, req.method)->Ok_0].handler is None,
    ensures
        ({
            let i = route_for(config, req.path, req.method)->Ok_0;
            let route = config.routes@[i];
            let path = rooted_path(route, req.path);
            &&& stepped(config, Ok(req)) == (StepView::Inspect { request: req, route: i, path })
            &&& resolved(config, req) == Ok::<(int, Seq<char>), StatusCode>((i, path))
            &&& followed(route, req, path, head, false, again) == if contains_seq(
                path,
                "/cgi/"@,
            ) {
                NextView::Script
            } else {
                NextView::Method
            }
        }),
{
}

/// A request that was assembled has the fields of its head, and all of them
/// are accepted.
pub proof fn lemma_assembled_fields(
    limit: nat,
    head: Seq<char>,
    body: Seq<u8>,
    target: Option<(Seq<char>, Option<Seq<char>>, Option<u16>)>,
    fit: bool,
)
    requires
        assembled(limit, head, body, target, fit) is Ok,
    ensures
        assembled(limit, head, body, target, fit).unwrap().headers == request_fields(head),
        fields_accepted(request_fields(head)),
{
}

/// A POST under a route that serves it, handled with the free name that was
/// found, writes the body of the request to that name and answers with
/// status 200 and the body.
pub proof fn lemma_post_writes_body(
    route: Route,
    config: ServerConfig,
    req: RequestView,
    name: Seq<char>,
)
    requires
        req.method == MethodName::Post,
        resolved(config, req) is Ok,
        is_header_value(config.host@),
    ensures
        handled(route, config, req, FactView::FreeName(Some(name))) is Ok,
        ({
            let outcome = handled(route, config, req, FactView::FreeName(Some(name))).unwrap();
            &&& outcome.effect == EffectView::Write { path: name, body: req.body }
            &&& outcome.response.status.code == OK
            &&& outcome.response.body == req.body
        }),
{
    let path = resolved(config, req).unwrap().1;
    lemma_media_type_is_value(crate::text::to_lower(crate::server::responses::extension(path)));
    lemma_success_is_owed(
        config.host@,
        Version::Http11,
        content_type_of(path),
        req.body.len(),
        Seq::empty(),
        req.body,
    );
}

/// A request that says it is chunked and carries a body written in
/// chunks, within the limit, is assembled with that body where it is
/// assembled at all; and it is assembled where its version and method can
/// be read, its target was parsed and its fields are accepted and fit.
pub proof fn lemma_chunked_request_carries_body(
    limit: nat,
    head: Seq<char>,
    chunks: Seq<Seq<u8>>,
    target: Option<(Seq<char>, Option<Seq<char>>, Option<u16>)>,
    fit: bool,
)
    requires
        writable(chunks),
        joined(chunks).len() <= limit,
        chunked(Some(request_fields(head))),
    ensures
        assembled(limit, head, encode_chunked(chunks), target, fit) is Ok ==> assembled(
            limit,
            head,
            encode_chunked(chunks),
            target,
            fit,
        ).unwrap().body == joined(chunks),
        crate::server::requests::version_of(head) is Ok && crate::server::methods::method_of(head)
            is Ok && target is Some && fit && fields_accepted(request_fields(head)) ==> assembled(
            limit,
            head,
            encode_chunked(chunks),
            target,
            fit,
        ) is Ok,
{
    lemma_chunked_round_trip(chunks, limit);
}

/// A chunked POST writes what its chunks carry: where the request is
/// assembled and a route serves it, handling it with the free name writes
/// the joined chunks to that name and answers with status 200.
pub proof fn lemma_chunked_post_writes_payload(
    route: Route,
    config: ServerConfig,
    head: Seq<char>,
    chunks: Seq<Seq<u8>>,
    target: Option<(Seq<char>, Option<Seq<char>>, Option<u16>)>,
    fit: bool,
    name: Seq<char>,
)
    requires
        writable(chunks),
        joined(chunks).len() <= config.body_size_limit,
        chunked(Some(request_fields(head))),
        assembled(config.body_size_limit as nat, head, encode_chunked(chunks), target, fit) is Ok,
        assembled(
            config.body_size_limit as nat,
            head,
            encode_chunked(chunks),
            target,
            fit,
        ).unwrap().method == MethodName::Post,
        resolved(
            config,
            assembled(
                config.body_size_limit as nat,
                head,
                encode_chunked(chunks),
                target,
                fit,
            ).unwrap(),
        ) is Ok,
        is_header_value(config.host@),
    ensures
        ({
            let req = assembled(
                config.body_size_limit as nat,
                head,
                encode_chunked(chunks),
                target,
                fit,
            ).unwrap();
            let done = handled(route, config, req, FactView::FreeName(Some(name)));
            &&& done is Ok
            &&& done.unwrap().effect == EffectView::Write { path: name, body: joined(chunks) }
            &&& done.unwrap().response.status.code == OK
        }),
{
    let limit = config.body_size_limit as nat;
    lemma_chunked_request_carries_body(limit, head, chunks, target, fit);
    let req = assembled(limit, head, encode_chunked(chunks), target, fit).unwrap();
    lemma_post_writes_body(route, config, req, name);
}

/// A header that is handed on to scripts, with a value that shows and is
/// not empty, sets its variable to that value.
pub proof fn lemma_header_sets_variable(fields: Fields, i: int)
    requires
        0 <= i < fields.len(),
        crate::server::cgi::variable_for(fields[i].0) is Some,
        shown(fields[i].1).len() > 0,
    ensures
        http_variables(fields).contains(
            (crate::server::cgi::variable_for(fields[i].0).unwrap(), fields[i].1),
        ),
    decreases fields.len(),
{
    let rest = http_variables(fields.drop_last());
    let all = http_variables(fields);
    if i == fields.len() - 1 {
        assert(shown(fields[i].1) == fields[i].1);
        assert(all == rest.push((
            crate::server::cgi::variable_for(fields[i].0).unwrap(),
            fields[i].1,
        )));
        assert(all[rest.len() as int] == (
            crate::server::cgi::variable_for(fields[i].0).unwrap(),
            fields[i].1,
        ));
    } else {
        assert(fields.drop_last()[i] == fields[i]);
        lemma_header_sets_variable(fields.drop_last(), i);
        let k = choose|k: int|
            0 <= k < rest.len() && rest[k] == (
                crate::server::cgi::variable_for(fields[i].0).unwrap(),
                fields[i].1,
            );
        assert(all[k] == rest[k]);
    }
}

/// The environment of a script names the method of the request as
/// `REQUEST_METHOD`, and hands on the `content-length` of the request as
/// `CONTENT_LENGTH` where the request declares one that shows.
pub proof fn lemma_script_sees_request(config: ServerConfig, req: RequestView, i: int)
    requires
        planned(config, req) is Ok,
    ensures
        planned(config, req).unwrap().environment.contains(
            ("REQUEST_METHOD"@, req.method.text()),
        ),
        0 <= i < req.headers.len() && req.headers[i].0 == "content-length"@ && shown(
            req.headers[i].1,
        ).len() > 0 ==> planned(config, req).unwrap().environment.contains(
            ("CONTENT_LENGTH"@, req.headers[i].1),
        ),
{
    let full = resolved(config, req).unwrap().1;
    let ext = crate::server::cgi::script_extension(full);
    let first = http_variables(req.headers);
    let second = request_variables(config, req, ext);
    let all = environment(config, req, ext);
    assert(planned(config, req).unwrap().environment == all);
    let before: Fields = match req.query {
        Some(query) => seq![("QUERY_STRING"@, query)],
        None => Seq::empty(),
    };
    let at = first.len() + before.len();
    assert(all[at as int] == ("REQUEST_METHOD"@, req.method.text()));
    if 0 <= i < req.headers.len() && req.headers[i].0 == "content-length"@ && shown(
        req.headers[i].1,
    ).len() > 0 {
        reveal_strlit("content-length");
        reveal_strlit("accept");
        assert("accept"@.len() != "content-length"@.len());
        assert(crate::server::cgi::variable_for(req.headers[i].0) == Some("CONTENT_LENGTH"@));
        lemma_header_sets_variable(req.headers, i);
        let k = choose|k: int|
            0 <= k < first.len() && first[k] == ("CONTENT_LENGTH"@, req.headers[i].1);
        assert(all[k] == first[k]);
    }
}

/// An extension as scripts have them: ASCII letters and digits.
pub open spec fn plain_extension(ext: Seq<char>) -> bool {
    forall|i: int|
        0 <= i < ext.len() ==> ((#[trigger] ext[i]) as u32) < 128 && letter_or_digit(ext[i])
}

/// A run of letters and digits that reaches the end of a text ends there.
pub proof fn lemma_run_reaches_end(s: Seq<char>, i: int)
    requires
        0 <= i <= s.len(),
        forall|j: int| i <= j < s.len() ==> letter_or_digit(#[trigger] s[j]),
    ensures
        run_end(s, i) == s.len(),
    decreases s.len() - i,
{
    if i < s.len() {
        lemma_run_reaches_end(s, i + 1);
    }
}

/// The extension of a script whose path ends with a dot and ASCII letters
/// and digits is what follows that dot.
pub proof fn lemma_extension_after_dot(stem: Seq<char>, ext: Seq<char>)
    requires
        plain_extension(ext),
    ensures
        script_extension(stem + seq!['.'] + ext) == ext,
{
    let path = stem + seq!['.'] + ext;
    let at = stem.len() as int;
    lemma_rfind_char(path, '.', path.len() as int);
    assert(path[at] == '.');
    assert forall|j: int| at < j < path.len() implies path[j] != '.' by {
        assert(path[j] == ext[j - at - 1]);
    }
    assert(rfind_char(path, '.', path.len() as int) == Some(at));
    assert(path.skip(at + 1) == ext);
    assert(ws_rskip(ext, ext.len() as int) == ext.len());
    assert(ext.take(ext.len() as int) == ext);
    lemma_run_reaches_end(ext, 0);
}

/// A request for a script whose route defines an interpreter for the
/// extension of the script, and whose body is text, is run by the program
/// of that interpreter, with the path of the script and the body as its
/// arguments.
pub proof fn lemma_script_is_planned(config: ServerConfig, req: RequestView, kind: Cgi)
    requires
        resolved(config, req) is Ok,
        config.routes@[resolved(config, req).unwrap().0].settings is Some,
        config.routes@[resolved(config, req).unwrap().0].settings->0.cgi_def is Some,
        valid_utf8(req.body),
        interpreter(
            config.routes@[resolved(config, req).unwrap().0].settings->0.cgi_def->0@,
            script_extension(resolved(config, req).unwrap().1),
            0,
        ) == Some(kind),
    ensures
        planned(config, req) is Ok,
        ({
            let path = resolved(config, req).unwrap().1;
            let command = planned(config, req).unwrap();
            &&& command.program == program(kind)
            &&& command.arguments == seq![
                script_path(path, script_extension(path)),
                decode_utf8(req.body),
            ]
        }),
{
}

/// A script that ran is answered with status 200 and what it printed.
pub proof fn lemma_script_is_answered(config: ServerConfig, req: RequestView, printed: Seq<u8>)
    requires
        planned(config, req) is Ok,
        is_header_value(config.host@),
        fields_accepted(req.headers),
    ensures
        cgi_result(config, req, Some(printed)) is Ok,
        ({
            let r = cgi_result(config, req, Some(printed)).unwrap();
            &&& r.status.code == OK
            &&& r.body == printed
            &&& field(r.headers, "content-length"@) == Some(decimal(printed.len()))
        }),
{
    reveal_strlit("text/html");
    lemma_named_fields_accepted(req.headers, "transfer-encoding"@);
    lemma_success_is_owed(
        config.host@,
        req.version,
        "text/html"@,
        printed.len(),
        echoed(req.headers),
        printed,
    );
}

} // verus!
