//! The values of the protocol: status codes, versions, methods and header
//! fields, with the checks that the `http` crate makes on them.

use crate::text::str_equal;
use vstd::prelude::*;

verus! {

/// The codes of the statuses that the server answers with.
pub const OK: u16 = 200;

pub const MOVED_PERMANENTLY: u16 = 301;

pub const TEMPORARY_REDIRECT: u16 = 307;

pub const BAD_REQUEST: u16 = 400;

pub const UNAUTHORIZED: u16 = 401;

pub const NOT_FOUND: u16 = 404;

pub const METHOD_NOT_ALLOWED: u16 = 405;

pub const PAYLOAD_TOO_LARGE: u16 = 413;

pub const INTERNAL_SERVER_ERROR: u16 = 500;

pub const NOT_IMPLEMENTED: u16 = 501;

pub const HTTP_VERSION_NOT_SUPPORTED: u16 = 505;

/// The status code of a response.
#[derive(Clone, Copy, Debug, PartialEq, Eq, Structural)]
pub struct StatusCode {
    pub code: u16,
}

impl StatusCode {
    /// The code lies between 300 and 399.
    pub open spec fn redirects(self) -> bool {
        300 <= self.code < 400
    }

    /// The status redirects.
    pub fn is_redirection(&self) -> (r: bool)
        ensures
            r == self.redirects(),
    {
        300 <= self.code && self.code < 400
    }
}

/// The reason phrase that the `http` crate's table gives for a status code,
/// if it lists the code.
pub uninterp spec fn reason_phrase(code: u16) -> Option<Seq<char>>;

/// Looks a status code up with `http::StatusCode::canonical_reason`. The
/// result is the entry of that crate's table of reason phrases, which depends
/// on the code alone; a code outside 100..=999 is no status code and has none.
#[verifier::external_body]
pub(crate) fn canonical_reason(code: u16) -> (r: Option<String>)
    ensures
        r.deep_view() == reason_phrase(code),
{
    match http::StatusCode::from_u16(code) {
        Ok(status) => status.canonical_reason().map(String::from),
        Err(_) => None,
    }
}

/// The version of the protocol that a message names.
#[derive(Clone, Copy, Debug, PartialEq, Eq, Structural)]
pub enum Version {
    Http09,
    Http10,
    Http11,
    H2,
    H3,
}

impl Version {
    /// The version as a message writes it.
    pub open spec fn text(self) -> Seq<char> {
        match self {
            Version::Http09 => "HTTP/0.9"@,
            Version::Http10 => "HTTP/1.0"@,
            Version::Http11 => "HTTP/1.1"@,
            Version::H2 => "HTTP/2.0"@,
            Version::H3 => "HTTP/3.0"@,
        }
    }

    /// The version as a message writes it.
    pub fn as_str(&self) -> (r: &'static str)
        ensures
            r@ == self.text(),
    {
        match self {
            Version::Http09 => "HTTP/0.9",
            Version::Http10 => "HTTP/1.0",
            Version::Http11 => "HTTP/1.1",
            Version::H2 => "HTTP/2.0",
            Version::H3 => "HTTP/3.0",
        }
    }
}

/// A character that a token may hold: an ASCII letter or digit, or one of
/// ``!#$%&'*+-.^_`|~``.
pub open spec fn is_tchar(c: char) -> bool {
    ('a' <= c <= 'z') || ('A' <= c <= 'Z') || ('0' <= c <= '9') || c == '!' || c == '#' || c == '$'
        || c == '%' || c == '&' || c == '\'' || c == '*' || c == '+' || c == '-' || c == '.' || c
        == '^' || c == '_' || c == '`' || c == '|' || c == '~'
}

/// A token: at least one character, each of them a token character.
pub open spec fn is_token(s: Seq<char>) -> bool {
    s.len() > 0 && forall|i: int| 0 <= i < s.len() ==> is_tchar(#[trigger] s[i])
}

/// Asks `http::Method::from_bytes` whether a word is a method. It accepts
/// exactly the tokens: a word that is empty or holds a byte outside the token
/// characters is refused.
#[verifier::external_body]
pub(crate) fn method_token_ok(word: &str) -> (b: bool)
    ensures
        b == is_token(word@),
{
    http::Method::from_bytes(word.as_bytes()).is_ok()
}

/// The longest header name that the `http` crate accepts.
pub const MAX_HEADER_NAME_LEN: usize = 65535;

/// A header name: a token of at most `MAX_HEADER_NAME_LEN` characters.
pub open spec fn is_header_name(s: Seq<char>) -> bool {
    is_token(s) && s.len() <= MAX_HEADER_NAME_LEN
}

/// Asks `http::HeaderName::from_bytes` whether a word is a header name. It
/// accepts the tokens of at most 65535 bytes (and folds their letters to lower
/// case).
#[verifier::external_body]
pub(crate) fn header_name_ok(word: &str) -> (b: bool)
    ensures
        b == is_header_name(word@),
{
    http::HeaderName::from_bytes(word.as_bytes()).is_ok()
}

/// A character that a header value may hold: a tab, or anything from the space
/// on but the delete character.
pub open spec fn is_value_char(c: char) -> bool {
    c == '\t' || (c >= ' ' && c != '\u{7f}')
}

/// A header value: each character may stand in one.
pub open spec fn is_header_value(s: Seq<char>) -> bool {
    forall|i: int| 0 <= i < s.len() ==> is_value_char(#[trigger] s[i])
}

/// Asks `http::HeaderValue::from_str` whether a text is a header value. It
/// refuses a text that holds a byte below 32 other than the tab, or the byte
/// 127; the bytes of a character beyond ASCII are all above 127.
#[verifier::external_body]
pub(crate) fn header_value_ok(text: &str) -> (b: bool)
    ensures
        b == is_header_value(text@),
{
    http::HeaderValue::from_str(text).is_ok()
}

/// What a request target is made of.
#[derive(Clone, Debug, PartialEq, Eq)]
pub struct Target {
    pub path: String,
    pub query: Option<String>,
    pub port: Option<u16>,
}

/// The path, query and port that the `http` crate reads out of a request
/// target, if it accepts the target.
pub uninterp spec fn target_parts(target: Seq<char>) -> Option<
    (Seq<char>, Option<Seq<char>>, Option<u16>),
>;

impl Target {
    /// The path, the query and the port of the target.
    pub open spec fn parts(self) -> (Seq<char>, Option<Seq<char>>, Option<u16>) {
        (self.path@, self.query.deep_view(), self.port)
    }
}

/// Parses a request target with `http::Uri::try_from` and reads its path,
/// query and port. The outcome depends on the target's text alone.
#[verifier::external_body]
pub(crate) fn parse_target(target: &str) -> (r: Option<Target>)
    ensures
        match r {
            Some(t) => target_parts(target@) == Some(t.parts()),
            None => target_parts(target@) is None,
        },
{
    match http::Uri::try_from(target) {
        Ok(uri) => Some(
            Target {
                path: String::from(uri.path()),
                query: uri.query().map(String::from),
                port: uri.port_u16(),
            },
        ),
        Err(_) => None,
    }
}

/// The name of a method, as a value of specifications.
pub enum MethodName {
    Options,
    Get,
    Post,
    Put,
    Delete,
    Head,
    Trace,
    Connect,
    Patch,
    Extension(Seq<char>),
}

/// The method that a token names.
pub open spec fn method_named(token: Seq<char>) -> MethodName {
    if token == "OPTIONS"@ {
        MethodName::Options
    } else if token == "GET"@ {
        MethodName::Get
    } else if token == "POST"@ {
        MethodName::Post
    } else if token == "PUT"@ {
        MethodName::Put
    } else if token == "DELETE"@ {
        MethodName::Delete
    } else if token == "HEAD"@ {
        MethodName::Head
    } else if token == "TRACE"@ {
        MethodName::Trace
    } else if token == "CONNECT"@ {
        MethodName::Connect
    } else if token == "PATCH"@ {
        MethodName::Patch
    } else {
        MethodName::Extension(token)
    }
}

impl MethodName {
    /// The name of a method that is not one of the nine is a token.
    pub open spec fn well_formed(self) -> bool {
        match self {
            MethodName::Extension(token) => is_token(token),
            _ => true,
        }
    }

    /// The token that names the method.
    pub open spec fn text(self) -> Seq<char> {
        match self {
            MethodName::Options => "OPTIONS"@,
            MethodName::Get => "GET"@,
            MethodName::Post => "POST"@,
            MethodName::Put => "PUT"@,
            MethodName::Delete => "DELETE"@,
            MethodName::Head => "HEAD"@,
            MethodName::Trace => "TRACE"@,
            MethodName::Connect => "CONNECT"@,
            MethodName::Patch => "PATCH"@,
            MethodName::Extension(token) => token,
        }
    }
}

/// The method of a request.
#[derive(Clone, Debug, PartialEq, Eq)]
pub enum Method {
    Options,
    Get,
    Post,
    Put,
    Delete,
    Head,
    Trace,
    Connect,
    Patch,
    Extension(String),
}

impl View for Method {
    type V = MethodName;

    open spec fn view(&self) -> MethodName {
        match self {
            Method::Options => MethodName::Options,
            Method::Get => MethodName::Get,
            Method::Post => MethodName::Post,
            Method::Put => MethodName::Put,
            Method::Delete => MethodName::Delete,
            Method::Head => MethodName::Head,
            Method::Trace => MethodName::Trace,
            Method::Connect => MethodName::Connect,
            Method::Patch => MethodName::Patch,
            Method::Extension(token) => MethodName::Extension(token@),
        }
    }
}

impl Method {
    /// The method that a token names.
    pub fn from_token(token: &str) -> (m: Method)
        ensures
            m@ == method_named(token@),
    {
        if str_equal(token, "OPTIONS") {
            Method::Options
        } else if str_equal(token, "GET") {
            Method::Get
        } else if str_equal(token, "POST") {
            Method::Post
        } else if str_equal(token, "PUT") {
            Method::Put
        } else if str_equal(token, "DELETE") {
            Method::Delete
        } else if str_equal(token, "HEAD") {
            Method::Head
        } else if str_equal(token, "TRACE") {
            Method::Trace
        } else if str_equal(token, "CONNECT") {
            Method::Connect
        } else if str_equal(token, "PATCH") {
            Method::Patch
        } else {
            Method::Extension(String::from_str(token))
        }
    }

    /// The token that names the method.
    pub fn as_str(&self) -> (r: &str)
        ensures
            r@ == self@.text(),
    {
        match self {
            Method::Options => "OPTIONS",
            Method::Get => "GET",
            Method::Post => "POST",
            Method::Put => "PUT",
            Method::Delete => "DELETE",
            Method::Head => "HEAD",
            Method::Trace => "TRACE",
            Method::Connect => "CONNECT",
            Method::Patch => "PATCH",
            Method::Extension(token) => token.as_str(),
        }
    }

    /// Both are the same method.
    pub fn same(&self, other: &Method) -> (r: bool)
        ensures
            r == (self@ == other@),
    {
        match (self, other) {
            (Method::Options, Method::Options) => true,
            (Method::Get, Method::Get) => true,
            (Method::Post, Method::Post) => true,
            (Method::Put, Method::Put) => true,
            (Method::Delete, Method::Delete) => true,
            (Method::Head, Method::Head) => true,
            (Method::Trace, Method::Trace) => true,
            (Method::Connect, Method::Connect) => true,
            (Method::Patch, Method::Patch) => true,
            (Method::Extension(a), Method::Extension(b)) => str_equal(a.as_str(), b.as_str()),
            _ => false,
        }
    }

    /// A copy of the method.
    pub fn duplicate(&self) -> (r: Method)
        ensures
            r@ == self@,
    {
        match self {
            Method::Options => Method::Options,
            Method::Get => Method::Get,
            Method::Post => Method::Post,
            Method::Put => Method::Put,
            Method::Delete => Method::Delete,
            Method::Head => Method::Head,
            Method::Trace => Method::Trace,
            Method::Connect => Method::Connect,
            Method::Patch => Method::Patch,
            Method::Extension(token) => Method::Extension(token.clone()),
        }
    }
}

/// The header fields of a message as specifications see them: names and
/// values in the order in which they were added.
pub type Fields = Seq<(Seq<char>, Seq<char>)>;

/// The value of the first field called `name` at or after index `from`.
pub open spec fn field_from(fields: Fields, name: Seq<char>, from: int) -> Option<Seq<char>>
    decreases fields.len() - from,
{
    if from < 0 || from >= fields.len() {
        None
    } else if fields[from].0 == name {
        Some(fields[from].1)
    } else {
        field_from(fields, name, from + 1)
    }
}

/// The value of the first field called `name`.
pub open spec fn field(fields: Fields, name: Seq<char>) -> Option<Seq<char>> {
    field_from(fields, name, 0)
}

/// The value of the first header called `name`.
pub fn find_header<'a>(headers: &'a Vec<(String, String)>, name: &str) -> (r: Option<&'a String>)
    ensures
        r.deep_view() == field(headers.deep_view(), name@),
{
    let mut i: usize = 0;
    while i < headers.len()
        invariant
            i <= headers.len(),
            field(headers.deep_view(), name@) == field_from(headers.deep_view(), name@, i as int),
        decreases headers.len() - i,
    {
        if str_equal(headers[i].0.as_str(), name) {
            return Some(&headers[i].1);
        }
        i += 1;
    }
    None
}

/// The bytes of a file that may be missing.
pub open spec fn contents_of(file: Option<Vec<u8>>) -> Option<Seq<u8>> {
    match file {
        Some(bytes) => Some(bytes@),
        None => None,
    }
}

/// Every field has a header name and a header value.
pub open spec fn fields_accepted(fields: Fields) -> bool {
    forall|i: int|
        0 <= i < fields.len() ==> is_header_name((#[trigger] fields[i]).0) && is_header_value(
            fields[i].1,
        )
}

/// Whether the header map that `http` keeps for a request takes all the
/// fields, added one after the other.
pub uninterp spec fn fields_fit(fields: Seq<(Seq<char>, Seq<char>)>) -> bool;

/// Adds the fields to an `http::request::Builder` with its method `header`,
/// one after the other, and asks with `headers_ref` whether the builder
/// still stands. `header` refuses a name or a value that the crate does not
/// accept, and a field for which its map of headers has no room; whether
/// there is room depends on how many names the map holds and on how their
/// hashes fall, and on nothing but the fields.
#[verifier::external_body]
pub(crate) fn headers_fit(fields: &Vec<(String, String)>) -> (fit: bool)
    ensures
        fit == fields_fit(fields.deep_view()),
{
    let mut builder = http::Request::builder();
    for (name, value) in fields.iter() {
        builder = builder.header(name.as_str(), value.as_str());
    }
    builder.headers_ref().is_some()
}

/// The fields called `name`, in order.
pub open spec fn fields_named(fields: Fields, name: Seq<char>) -> Fields
    decreases fields.len(),
{
    if fields.len() == 0 {
        fields
    } else {
        let rest = fields_named(fields.drop_last(), name);
        if fields.last().0 == name {
            rest.push(fields.last())
        } else {
            rest
        }
    }
}

/// A request as specifications see it.
pub struct RequestView {
    pub method: MethodName,
    pub uri: Seq<char>,
    pub path: Seq<char>,
    pub query: Option<Seq<char>>,
    pub port: Option<u16>,
    pub version: Version,
    pub headers: Fields,
    pub body: Seq<u8>,
}

/// A request: its method, its target with what the target is made of, its
/// version, its headers in the order of the message, and its body.
#[derive(Debug, PartialEq, Eq)]
pub struct Request {
    pub method: Method,
    pub uri: String,
    pub path: String,
    pub query: Option<String>,
    pub port: Option<u16>,
    pub version: Version,
    pub headers: Vec<(String, String)>,
    pub body: Vec<u8>,
}

impl View for Request {
    type V = RequestView;

    open spec fn view(&self) -> RequestView {
        RequestView {
            method: self.method@,
            uri: self.uri@,
            path: self.path@,
            query: self.query.deep_view(),
            port: self.port,
            version: self.version,
            headers: self.headers.deep_view(),
            body: self.body@,
        }
    }
}

/// A response as specifications see it.
pub struct ResponseView {
    pub status: StatusCode,
    pub version: Version,
    pub headers: Fields,
    pub body: Seq<u8>,
}

/// A response: its status, its version, its headers in the order in which
/// they are sent, and its body.
#[derive(Debug, PartialEq, Eq)]
pub struct Response {
    pub status: StatusCode,
    pub version: Version,
    pub headers: Vec<(String, String)>,
    pub body: Vec<u8>,
}

impl View for Response {
    type V = ResponseView;

    open spec fn view(&self) -> ResponseView {
        ResponseView {
            status: self.status,
            version: self.version,
            headers: self.headers.deep_view(),
            body: self.body@,
        }
    }
}

/// The response that is built from a status, a version, fields and a body:
/// it exists where every field has a header name and a header value, and
/// building fails with status 500 where one has not.
pub open spec fn built(status: u16, version: Version, fields: Fields, body: Seq<u8>) -> Result<
    ResponseView,
    StatusCode,
> {
    if fields_accepted(fields) {
        Ok(ResponseView { status: StatusCode { code: status }, version, headers: fields, body })
    } else {
        Err(StatusCode { code: INTERNAL_SERVER_ERROR })
    }
}

/// A response under construction: fields are added one by one, and a name
/// or a value that is refused makes the whole construction fail.
pub struct Builder {
    pub status: u16,
    pub version: Version,
    pub headers: Vec<(String, String)>,
    pub failed: bool,
}

impl Builder {
    /// The fields that were added, in order.
    pub open spec fn fields(self) -> Fields {
        self.headers.deep_view()
    }

    /// The builder has failed exactly where one of its names or values is
    /// refused.
    pub open spec fn well_formed(self) -> bool {
        self.failed == !fields_accepted(self.fields())
    }

    /// A builder with status 200 and no field.
    pub fn new(version: Version) -> (b: Builder)
        ensures
            b.status == OK,
            b.version == version,
            b.fields() == Fields::empty(),
            b.well_formed(),
    {
        let b = Builder { status: OK, version, headers: Vec::new(), failed: false };
        assert(b.fields() == Fields::empty());
        b
    }

    /// Adds a field; the builder fails where the name is no header name or
    /// the value no header value.
    pub fn header(&mut self, name: &str, value: &str)
        requires
            old(self).well_formed(),
        ensures
            final(self).status == old(self).status,
            final(self).version == old(self).version,
            final(self).fields() == old(self).fields().push((name@, value@)),
            final(self).well_formed(),
    {
        let ghost before = self.fields();
        proof {
            lemma_fields_accepted_push(before, name@, value@);
        }
        if !header_name_ok(name) || !header_value_ok(value) {
            self.failed = true;
        }
        self.headers.push((String::from_str(name), String::from_str(value)));
        assert(self.fields() == before.push((name@, value@)));
    }

    /// The response, or status 500 where a name or a value was refused.
    pub fn body(self, body: Vec<u8>) -> (r: Result<Response, StatusCode>)
        requires
            self.well_formed(),
        ensures
            match r {
                Ok(response) => built(self.status, self.version, self.fields(), body@) == Ok::<
                    ResponseView,
                    StatusCode,
                >(response@),
                Err(code) => built(self.status, self.version, self.fields(), body@) == Err::<
                    ResponseView,
                    StatusCode,
                >(code),
            },
    {
        if self.failed {
            Err(StatusCode { code: INTERNAL_SERVER_ERROR })
        } else {
            Ok(
                Response {
                    status: StatusCode { code: self.status },
                    version: self.version,
                    headers: self.headers,
                    body,
                },
            )
        }
    }
}

/// Fields with one more field are accepted where the fields and the field
/// are.
pub proof fn lemma_fields_accepted_push(fields: Fields, name: Seq<char>, value: Seq<char>)
    ensures
        fields_accepted(fields.push((name, value))) == (fields_accepted(fields) && is_header_name(
            name,
        ) && is_header_value(value)),
{
    let more = fields.push((name, value));
    if fields_accepted(fields) && is_header_name(name) && is_header_value(value) {
        assert forall|i: int| 0 <= i < more.len() implies is_header_name((#[trigger] more[i]).0)
            && is_header_value(more[i].1) by {
            if i < fields.len() {
                assert(more[i] == fields[i]);
            }
        }
    }
    if fields_accepted(more) {
        assert(more[fields.len() as int] == (name, value));
        assert forall|i: int| 0 <= i < fields.len() implies is_header_name(
            (#[trigger] fields[i]).0,
        ) && is_header_value(fields[i].1) by {
            assert(more[i] == fields[i]);
        }
    }
}

} // verus!
