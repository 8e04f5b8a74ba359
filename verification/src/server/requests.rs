//! Reading a request: its lines and words, its headers and its body.

use crate::server::config::{Route, ServerConfig};
use crate::server::methods::{get_method, method_of};
use crate::server::protocol::{
    field, fields_accepted, fields_fit, find_header, header_name_ok, header_value_ok,
    headers_fit, lemma_fields_accepted_push, parse_target, target_parts, Fields, Request,
    RequestView, StatusCode, Target, Version, BAD_REQUEST, HTTP_VERSION_NOT_SUPPORTED,
    PAYLOAD_TOO_LARGE,
};
use crate::text::{
    chars_match_at, chars_of, decimal_value, find, find_bytes, find_chars, lower_char, lowercase,
    parse_decimal, pieces, skip_whitespace, split, split_chars, starts_with, str_equal, to_lower,
    trim, trim_end, trim_end_matches, trimmed_end, trimmed_end_matches, word_ranges, words,
    Capped,
};
use vstd::prelude::*;
use vstd::slice::slice_subrange;

verus! {

/// The lines of a text: what stands between the line breaks, once trailing
/// NUL characters are dropped.
pub open spec fn lines(text: Seq<char>) -> Seq<Seq<char>> {
    split(trim_end_matches(text, '\0'), "\r\n"@)
}

/// The line of a text at an index, or the first line where the index is out
/// of range.
pub open spec fn line_at(text: Seq<char>, index: nat) -> Seq<char> {
    let all = lines(text);
    if index < all.len() {
        all[index as int]
    } else {
        all[0]
    }
}

/// The word of a text at an index, or its first word where the index is out of
/// range; empty where the text holds no word.
pub open spec fn word_at(text: Seq<char>, index: nat) -> Seq<char> {
    let all = words(text);
    if all.len() == 0 {
        Seq::empty()
    } else if index < all.len() {
        all[index as int]
    } else {
        all[0]
    }
}

/// The line at `index` of the lines that `"\r\n"` ends.
pub fn get_line<'a>(text: &'a str, index: usize) -> (line: &'a str)
    ensures
        line@ == line_at(text@, index as nat),
{
    let chars = chars_of(text);
    let end: usize = trimmed_end_matches(chars.as_slice(), '\0', chars.len());
    let kept = slice_subrange(chars.as_slice(), 0, end);
    let pat = chars_of("\r\n");
    proof {
        reveal_strlit("\r\n");
    }
    let ranges = split_chars(kept, pat.as_slice());
    let k: usize = if index < ranges.len() {
        index
    } else {
        0
    };
    let (a, b) = ranges[k];
    proof {
        assert(kept@ == trim_end_matches(text@, '\0'));
        assert(pieces(kept@, ranges@)[k as int] == kept@.subrange(a as int, b as int));
        assert(kept@.subrange(a as int, b as int) == text@.subrange(a as int, b as int));
    }
    text.substring_char(a, b)
}

/// The word at `index` of the words that white space parts.
pub fn get_split_index<'a>(text: &'a str, index: usize) -> (word: &'a str)
    ensures
        word@ == word_at(text@, index as nat),
{
    let chars = chars_of(text);
    let ranges = word_ranges(chars.as_slice());
    if ranges.len() == 0 {
        let empty = text.substring_char(0, 0);
        assert(empty@ == Seq::<char>::empty());
        return empty;
    }
    let k: usize = if index < ranges.len() {
        index
    } else {
        0
    };
    let (a, b) = ranges[k];
    proof {
        assert(pieces(chars@, ranges@)[k as int] == chars@.subrange(a as int, b as int));
    }
    text.substring_char(a, b)
}

/// The path that a request names: the second word of its first line.
pub open spec fn path_of(req: Seq<char>) -> Seq<char> {
    word_at(line_at(req, 0), 1)
}

/// The path that a request names.
pub fn get_path<'a>(req: &'a str) -> (path: &'a str)
    ensures
        path@ == path_of(req@),
{
    let line = get_line(req, 0);
    get_split_index(line, 1)
}

/// A route sends `path` on to its own path: its settings list `path` among
/// the redirections.
pub open spec fn redirects_from(route: Route, path: Seq<char>) -> bool {
    match route.settings {
        Some(settings) => match settings.http_redirections {
            Some(list) => list.deep_view().contains(path),
            None => false,
        },
        None => false,
    }
}

/// The first route at or after `from` whose path is `path`.
pub open spec fn first_exact(routes: Seq<Route>, path: Seq<char>, from: int) -> Option<int>
    decreases routes.len() - from,
{
    if from < 0 || from >= routes.len() {
        None
    } else if routes[from].url_path@ == path {
        Some(from)
    } else {
        first_exact(routes, path, from + 1)
    }
}

/// The first route at or after `from` that redirects `path`.
pub open spec fn first_redirect(routes: Seq<Route>, path: Seq<char>, from: int) -> Option<int>
    decreases routes.len() - from,
{
    if from < 0 || from >= routes.len() {
        None
    } else if redirects_from(routes[from], path) {
        Some(from)
    } else {
        first_redirect(routes, path, from + 1)
    }
}

/// Among the first `n` routes, the one whose path is the longest prefix of
/// `path`; of several with the longest prefix, the earliest.
pub open spec fn best_prefix(routes: Seq<Route>, path: Seq<char>, n: int) -> Option<int>
    decreases n,
{
    if n <= 0 || n > routes.len() {
        None
    } else {
        let best = best_prefix(routes, path, n - 1);
        let candidate = routes[n - 1].url_path@;
        if starts_with(path, candidate) && (best is None || candidate.len()
            > routes[best.unwrap()].url_path@.len()) {
            Some(n - 1)
        } else {
            best
        }
    }
}

/// The route that serves `path`: the first route with exactly this path;
/// else the first route that redirects it; else the route with the longest
/// prefix of it.
pub open spec fn selected(routes: Seq<Route>, path: Seq<char>) -> Option<int> {
    match first_exact(routes, path, 0) {
        Some(i) => Some(i),
        None => match first_redirect(routes, path, 0) {
            Some(i) => Some(i),
            None => best_prefix(routes, path, routes.len() as int),
        },
    }
}

/// The first exact match is a match, and no route before it is one.
pub proof fn lemma_first_exact(routes: Seq<Route>, path: Seq<char>, from: int)
    requires
        0 <= from,
    ensures
        match first_exact(routes, path, from) {
            Some(i) => from <= i < routes.len() && routes[i].url_path@ == path && forall|j: int|
                from <= j < i ==> routes[j].url_path@ != path,
            None => forall|j: int| from <= j < routes.len() ==> routes[j].url_path@ != path,
        },
    decreases routes.len() - from,
{
    if from < routes.len() && routes[from].url_path@ != path {
        lemma_first_exact(routes, path, from + 1);
    }
}

/// The first redirecting route redirects, and no route before it does.
pub proof fn lemma_first_redirect(routes: Seq<Route>, path: Seq<char>, from: int)
    requires
        0 <= from,
    ensures
        match first_redirect(routes, path, from) {
            Some(i) => from <= i < routes.len() && redirects_from(routes[i], path) && forall|
                j: int,
            |
                from <= j < i ==> !redirects_from(routes[j], path),
            None => forall|j: int| from <= j < routes.len() ==> !redirects_from(routes[j], path),
        },
    decreases routes.len() - from,
{
    if from < routes.len() && !redirects_from(routes[from], path) {
        lemma_first_redirect(routes, path, from + 1);
    }
}

/// The best prefix is a prefix of the path; no route has a longer prefix of
/// it, and no earlier route has one as long.
pub proof fn lemma_best_prefix(routes: Seq<Route>, path: Seq<char>, n: int)
    requires
        0 <= n <= routes.len(),
    ensures
        match best_prefix(routes, path, n) {
            Some(i) => 0 <= i < n && starts_with(path, routes[i].url_path@) && forall|j: int|
                0 <= j < n && starts_with(path, #[trigger] routes[j].url_path@) ==> {
                    let len_j = routes[j].url_path@.len();
                    let len_i = routes[i].url_path@.len();
                    len_j < len_i || (len_j == len_i && i <= j)
                },
            None => forall|j: int| 0 <= j < n ==> !starts_with(path, #[trigger] routes[j].url_path@),
        },
    decreases n,
{
    if n > 0 {
        lemma_best_prefix(routes, path, n - 1);
    }
}

/// `path` is one of the listed paths.
pub fn lists_path(list: &Vec<&str>, path: &str) -> (r: bool)
    ensures
        r == list.deep_view().contains(path@),
{
    let mut i: usize = 0;
    while i < list.len()
        invariant
            i <= list.len(),
            forall|j: int| 0 <= j < i ==> list.deep_view()[j] != path@,
        decreases list.len() - i,
    {
        if str_equal(list[i], path) {
            assert(list.deep_view()[i as int] == path@);
            return true;
        }
        i += 1;
    }
    false
}

/// `path` is among the redirections of the route.
pub fn route_redirects(route: &Route, path: &str) -> (r: bool)
    ensures
        r == redirects_from(*route, path@),
{
    match &route.settings {
        Some(settings) => match &settings.http_redirections {
            Some(list) => lists_path(list, path),
            None => false,
        },
        None => false,
    }
}

/// The route that serves the requested path, with the route's own path.
pub fn path_exists<'a>(requested_path: &str, routes: &[Route<'a>]) -> (r: Option<(usize, &'a str)>)
    ensures
        match r {
            Some((i, path)) => selected(routes@, requested_path@) == Some(i as int) && i
                < routes.len() && path@ == routes[i as int].url_path@,
            None => selected(routes@, requested_path@) is None,
        },
{
    let mut i: usize = 0;
    while i < routes.len()
        invariant
            i <= routes.len(),
            first_exact(routes@, requested_path@, 0) == first_exact(
                routes@,
                requested_path@,
                i as int,
            ),
        decreases routes.len() - i,
    {
        if str_equal(routes[i].url_path, requested_path) {
            return Some((i, routes[i].url_path));
        }
        i += 1;
    }
    i = 0;
    while i < routes.len()
        invariant
            i <= routes.len(),
            first_exact(routes@, requested_path@, 0) is None,
            first_redirect(routes@, requested_path@, 0) == first_redirect(
                routes@,
                requested_path@,
                i as int,
            ),
        decreases routes.len() - i,
    {
        if route_redirects(&routes[i], requested_path) {
            return Some((i, routes[i].url_path));
        }
        i += 1;
    }
    let wanted = chars_of(requested_path);
    let mut best: Option<(usize, usize)> = None;
    i = 0;
    while i < routes.len()
        invariant
            i <= routes.len(),
            wanted@ == requested_path@,
            match best {
                Some((k, len)) => best_prefix(routes@, requested_path@, i as int) == Some(k as int)
                    && k < i && len == routes[k as int].url_path@.len(),
                None => best_prefix(routes@, requested_path@, i as int) is None,
            },
        decreases routes.len() - i,
    {
        let candidate = chars_of(routes[i].url_path);
        if chars_match_at(wanted.as_slice(), candidate.as_slice(), 0) {
            let longer: bool = match best {
                Some((_, len)) => candidate.len() > len,
                None => true,
            };
            if longer {
                best = Some((i, candidate.len()));
            }
        }
        i += 1;
    }
    match best {
        Some((k, _)) => Some((k, routes[k].url_path)),
        None => None,
    }
}

/// The path of the file that a request path names under a route: a dot, the
/// route's root, the path.
pub open spec fn rooted_path(route: Route, path: Seq<char>) -> Seq<char> {
    seq!['.'] + route.root() + path
}

/// The path of the file that `path` names under `route`.
pub fn add_root_to_path(route: &Route, path: &str) -> (file: String)
    ensures
        file@ == rooted_path(*route, path@),
{
    proof {
        reveal_strlit(".");
        assert("."@ == seq!['.']);
    }
    let mut file = String::from_str(".");
    if let Some(settings) = &route.settings {
        if let Some(root) = settings.root_path {
            file.append(root);
        }
    }
    file.append(path);
    file
}

/// The head of a request: what precedes the first empty line, once trailing
/// line feeds and white space are dropped.
pub open spec fn head_of(req: Seq<char>) -> Seq<char> {
    split(trim_end(trim_end_matches(req, '\n')), "\r\n\r\n"@)[0]
}

/// The header lines of a request: the lines of its head after the first.
pub open spec fn header_lines(req: Seq<char>) -> Seq<Seq<char>> {
    split(trim_end(head_of(req)), "\r\n"@).skip(1)
}

/// The header lines of a request.
pub fn get_headers<'a>(req: &'a str) -> (r: Vec<&'a str>)
    ensures
        r.deep_view() == header_lines(req@),
{
    proof {
        reveal_strlit("\r\n\r\n");
        reveal_strlit("\r\n");
    }
    let chars = chars_of(req);
    let e1: usize = trimmed_end_matches(chars.as_slice(), '\n', chars.len());
    let s1 = slice_subrange(chars.as_slice(), 0, e1);
    let e2: usize = trimmed_end(s1, e1);
    let s2 = slice_subrange(s1, 0, e2);
    let blank = chars_of("\r\n\r\n");
    let parts = split_chars(s2, blank.as_slice());
    let (a, b) = parts[0];
    let head = slice_subrange(s2, a, b);
    let e3: usize = trimmed_end(head, head.len());
    let s3 = slice_subrange(head, 0, e3);
    let crlf = chars_of("\r\n");
    let ranges = split_chars(s3, crlf.as_slice());
    proof {
        assert(s2@ == trim_end(trim_end_matches(req@, '\n')));
        assert(pieces(s2@, parts@)[0] == s2@.subrange(a as int, b as int));
        assert(head@ == head_of(req@));
        assert(s3@ == trim_end(head_of(req@)));
    }
    let ghost all = split(s3@, crlf@);
    let ascii = req.is_ascii();
    let mut out: Vec<&'a str> = Vec::new();
    let mut i: usize = 1;
    while i < ranges.len()
        invariant
            1 <= i <= ranges.len(),
            all == pieces(s3@, ranges@),
            crate::text::ranges_within(ranges@, s3@.len()),
            out.deep_view() == all.subrange(1, i as int),
            ascii == req.is_ascii(),
            s3@ == head@.take(e3 as int),
            head@ == s2@.subrange(a as int, b as int),
            s2@ == req@.take(e2 as int),
            e3 <= head@.len(),
            a <= b <= s2@.len(),
            e2 <= req@.len(),
        decreases ranges.len() - i,
    {
        let (c, d) = ranges[i];
        let line = slice_subrange(s3, c, d);
        let ghost before = out.deep_view();
        let piece = if ascii {
            req.substring_ascii(a + c, a + d)
        } else {
            req.substring_char(a + c, a + d)
        };
        proof {
            assert(all[i as int] == s3@.subrange(c as int, d as int));
            assert(piece@ == line@);
        }
        out.push(piece);
        proof {
            assert(out.deep_view() == before.push(line@));
            assert(all.subrange(1, i + 1) == all.subrange(1, i as int).push(all[i as int]));
        }
        i += 1;
    }
    proof {
        assert(all.subrange(1, ranges.len() as int) == all.skip(1));
    }
    out
}

/// The name and the value of a header line: what stands before and after the
/// first `": "`, once trailing NUL characters and white space are dropped.
pub open spec fn header_of(line: Seq<char>) -> Option<(Seq<char>, Seq<char>)> {
    let kept = trim_end(trim_end_matches(line, '\0'));
    match find(kept, ": "@) {
        Some(i) => Some((kept.take(i), kept.skip(i + 2))),
        None => None,
    }
}

/// Splits a header line into name and value.
pub fn format_header<'a>(header: &'a str) -> (r: Option<(&'a str, &'a str)>)
    ensures
        r.deep_view() == header_of(header@),
{
    proof {
        reveal_strlit(": ");
    }
    let chars = chars_of(header);
    let e1: usize = trimmed_end_matches(chars.as_slice(), '\0', chars.len());
    let s1 = slice_subrange(chars.as_slice(), 0, e1);
    let e2: usize = trimmed_end(s1, e1);
    let kept = slice_subrange(s1, 0, e2);
    let sep = chars_of(": ");
    proof {
        assert(kept@ == trim_end(trim_end_matches(header@, '\0')));
    }
    match find_chars(kept, sep.as_slice(), 0) {
        Some(i) => {
            let name = header.substring_char(0, i);
            let value = header.substring_char(i + 2, e2);
            proof {
                assert(name@ == kept@.take(i as int));
                assert(value@ == kept@.skip(i + 2));
            }
            Some((name, value))
        },
        None => None,
    }
}

/// The version that a word names.
pub open spec fn version_named(word: Seq<char>) -> Option<Version> {
    if word == "HTTP/0.9"@ {
        Some(Version::Http09)
    } else if word == "HTTP/1.0"@ {
        Some(Version::Http10)
    } else if word == "HTTP/1.1"@ {
        Some(Version::Http11)
    } else if word == "HTTP/2.0"@ {
        Some(Version::H2)
    } else if word == "HTTP/3.0"@ {
        Some(Version::H3)
    } else {
        None
    }
}

/// The version of a request: the one that the third word of its first line
/// names. Where that line has no third word the request is bad; a word that
/// names no known version asks for one that is not supported.
pub open spec fn version_of(req: Seq<char>) -> Result<Version, StatusCode> {
    let all = words(line_at(req, 0));
    if all.len() < 3 {
        Err(StatusCode { code: BAD_REQUEST })
    } else {
        match version_named(all[2]) {
            Some(version) => Ok(version),
            None => Err(StatusCode { code: HTTP_VERSION_NOT_SUPPORTED }),
        }
    }
}

/// The version of a request.
pub fn get_version(req: &str) -> (r: Result<Version, StatusCode>)
    ensures
        r == version_of(req@),
{
    let line = get_line(req, 0);
    let chars = chars_of(line);
    let ranges = word_ranges(chars.as_slice());
    if ranges.len() < 3 {
        return Err(StatusCode { code: BAD_REQUEST });
    }
    let (a, b) = ranges[2];
    let text = line.substring_char(a, b);
    proof {
        assert(text@ == words(line@)[2]);
    }
    if str_equal(text, "HTTP/0.9") {
        Ok(Version::Http09)
    } else if str_equal(text, "HTTP/1.0") {
        Ok(Version::Http10)
    } else if str_equal(text, "HTTP/1.1") {
        Ok(Version::Http11)
    } else if str_equal(text, "HTTP/2.0") {
        Ok(Version::H2)
    } else if str_equal(text, "HTTP/3.0") {
        Ok(Version::H3)
    } else {
        Err(StatusCode { code: HTTP_VERSION_NOT_SUPPORTED })
    }
}

/// The headers ask for a chunked body: there are headers, and the first
/// `transfer-encoding` among them says `chunked`.
pub open spec fn chunked(headers: Option<Seq<(Seq<char>, Seq<char>)>>) -> bool {
    match headers {
        Some(fields) => field(fields, "transfer-encoding"@) == Some("chunked"@),
        None => false,
    }
}

/// The headers ask for a chunked body.
pub fn is_chunked(headers: Option<&Vec<(String, String)>>) -> (r: bool)
    ensures
        r == chunked(headers.deep_view()),
{
    match headers {
        Some(fields) => match find_header(fields, "transfer-encoding") {
            Some(value) => str_equal(value.as_str(), "chunked"),
            None => false,
        },
        None => false,
    }
}

/// A body that is no longer than the limit; a longer one is too large.
pub fn get_body(body: Vec<u8>, limit: usize) -> (r: Result<Vec<u8>, StatusCode>)
    ensures
        body.len() <= limit ==> r == Ok::<Vec<u8>, StatusCode>(body),
        body.len() > limit ==> r == Err::<Vec<u8>, StatusCode>(
            StatusCode { code: PAYLOAD_TOO_LARGE },
        ),
{
    if body.len() <= limit {
        Ok(body)
    } else {
        Err(StatusCode { code: PAYLOAD_TOO_LARGE })
    }
}

/// The bytes that count as white space around a chunk size.
pub open spec fn is_space_byte(b: u8) -> bool {
    b == 32 || (9 <= b <= 13)
}

/// The first index at or after `i` that holds no white space.
pub open spec fn space_skip(s: Seq<u8>, i: int) -> int
    decreases s.len() - i,
{
    if 0 <= i < s.len() && is_space_byte(s[i]) {
        space_skip(s, i + 1)
    } else {
        i
    }
}

/// The end of what is left of `s` between `from` and `n` once trailing white
/// space is dropped.
pub open spec fn space_rskip(s: Seq<u8>, from: int, n: int) -> int
    decreases n,
{
    if 0 <= from < n <= s.len() && is_space_byte(s[n - 1]) {
        space_rskip(s, from, n - 1)
    } else {
        n
    }
}

/// `s` without leading and trailing white space.
pub open spec fn trim_bytes(s: Seq<u8>) -> Seq<u8> {
    let a = space_skip(s, 0);
    s.subrange(a, space_rskip(s, a, s.len() as int))
}

/// The value of a hexadecimal digit.
pub open spec fn hex_digit(b: u8) -> Option<nat> {
    if 48 <= b <= 57 {
        Some((b - 48) as nat)
    } else if 97 <= b <= 102 {
        Some((b - 87) as nat)
    } else if 65 <= b <= 70 {
        Some((b - 55) as nat)
    } else {
        None
    }
}

/// Every byte of `s` is a hexadecimal digit.
pub open spec fn all_hex(s: Seq<u8>) -> bool {
    forall|i: int| 0 <= i < s.len() ==> hex_digit(#[trigger] s[i]) is Some
}

/// The number that the hexadecimal digits of `s` write.
pub open spec fn hex_value(s: Seq<u8>) -> nat
    decreases s.len(),
{
    if s.len() == 0 {
        0
    } else {
        hex_value(s.drop_last()) * 16 + hex_digit(s.last()).unwrap()
    }
}

/// The digits of a chunk size: the size without the white space around it
/// and without a leading plus sign.
pub open spec fn size_digits(token: Seq<u8>) -> Seq<u8> {
    let t = trim_bytes(token);
    if t.len() > 0 && t[0] == 43 {
        t.skip(1)
    } else {
        t
    }
}

/// The size that the first line of a chunk gives: at least one hexadecimal
/// digit, and a number that a `usize` holds.
pub open spec fn chunk_size(token: Seq<u8>) -> Option<nat> {
    let digits = size_digits(token);
    if digits.len() > 0 && all_hex(digits) && hex_value(digits) <= usize::MAX {
        Some(hex_value(digits))
    } else {
        None
    }
}

/// Reads the size of a chunk.
pub fn parse_chunk_size(token: &[u8]) -> (r: Option<usize>)
    ensures
        match r {
            Some(n) => chunk_size(token@) == Some(n as nat),
            None => chunk_size(token@) is None,
        },
{
    let mut a: usize = 0;
    while a < token.len() && (token[a] == 32 || (9 <= token[a] && token[a] <= 13))
        invariant
            a <= token.len(),
            space_skip(token@, 0) == space_skip(token@, a as int),
        decreases token.len() - a,
    {
        a += 1;
    }
    let mut b: usize = token.len();
    while a < b && (token[b - 1] == 32 || (9 <= token[b - 1] && token[b - 1] <= 13))
        invariant
            a <= b <= token.len(),
            space_rskip(token@, a as int, token@.len() as int) == space_rskip(
                token@,
                a as int,
                b as int,
            ),
        decreases b,
    {
        b -= 1;
    }
    assert(trim_bytes(token@) == token@.subrange(a as int, b as int));
    if a < b && token[a] == 43 {
        a += 1;
    }
    let digits = slice_subrange(token, a, b);
    assert(digits@ == size_digits(token@));
    if digits.len() == 0 {
        return None;
    }
    let mut i: usize = 0;
    let mut value: usize = 0;
    let mut above: bool = false;
    while i < digits.len()
        invariant
            i <= digits.len(),
            digits.len() > 0,
            digits@ == size_digits(token@),
            all_hex(digits@.take(i as int)),
            above ==> hex_value(digits@.take(i as int)) > usize::MAX,
            !above ==> value == hex_value(digits@.take(i as int)),
        decreases digits.len() - i,
    {
        let c: u8 = digits[i];
        let d: usize = if 48 <= c && c <= 57 {
            (c - 48) as usize
        } else if 97 <= c && c <= 102 {
            (c - 87) as usize
        } else if 65 <= c && c <= 70 {
            (c - 55) as usize
        } else {
            proof {
                assert(hex_digit(digits@[i as int]) is None);
            }
            return None;
        };
        proof {
            let t = digits@.take(i + 1);
            assert(t.drop_last() == digits@.take(i as int));
            assert(t.last() == c);
            assert forall|k: int| 0 <= k < t.len() implies hex_digit(#[trigger] t[k]) is Some by {
                if k < i {
                    assert(t[k] == digits@.take(i as int)[k]);
                }
            }
        }
        if !above {
            if value > (usize::MAX - d) / 16 {
                above = true;
            } else {
                value = value * 16 + d;
            }
        }
        i += 1;
    }
    proof {
        assert(digits@.take(digits.len() as int) == digits@);
    }
    if above {
        None
    } else {
        Some(value)
    }
}

/// Splits `data` at the first place where `first` is followed by `second`:
/// what precedes the two bytes, and what follows them.
pub fn split_once_str(data: &[u8], first: u8, second: u8) -> (r: Option<(&[u8], &[u8])>)
    ensures
        match r {
            Some((head, rest)) => find(data@, seq![first, second]) matches Some(i) && head@
                == data@.take(i) && rest@ == data@.skip(i + 2),
            None => find(data@, seq![first, second]) is None,
        },
{
    let mut pat: Vec<u8> = Vec::new();
    pat.push(first);
    pat.push(second);
    assert(pat@ == seq![first, second]);
    match find_bytes(data, pat.as_slice(), 0) {
        Some(i) => Some((slice_subrange(data, 0, i), slice_subrange(data, i + 2, data.len()))),
        None => None,
    }
}

/// The body that chunked data carries, appended to `acc`. Each chunk is a
/// line with its size in hexadecimal, that many bytes, and a line break. A
/// chunk of size zero, or the end of the data, ends the body. A size that
/// cannot be read, a chunk that is cut short or one that no line break
/// follows make a bad request; a body above the limit is too large.
pub open spec fn decode_chunked(data: Seq<u8>, limit: nat, acc: Seq<u8>) -> Result<
    Seq<u8>,
    StatusCode,
>
    decreases data.len(),
{
    if data.len() == 0 {
        Ok(acc)
    } else {
        match find(data, seq![13u8, 10u8]) {
            None => Err(StatusCode { code: BAD_REQUEST }),
            Some(i) => match chunk_size(data.take(i)) {
                None => Err(StatusCode { code: BAD_REQUEST }),
                Some(n) => {
                    let rest = data.skip(i + 2);
                    if n == 0 {
                        Ok(acc)
                    } else if rest.len() < n + 2 {
                        Err(StatusCode { code: BAD_REQUEST })
                    } else if rest[n as int] != 13u8 || rest[n as int + 1] != 10u8 {
                        Err(StatusCode { code: BAD_REQUEST })
                    } else if acc.len() + n > limit {
                        Err(StatusCode { code: PAYLOAD_TOO_LARGE })
                    } else {
                        proof {
                            crate::text::lemma_find_from(data, seq![13u8, 10u8], 0);
                        }
                        decode_chunked(rest.skip(n as int + 2), limit, acc + rest.take(n as int))
                    }
                },
            },
        }
    }
}

/// Decodes a chunked body.
pub fn get_chunked_body(body: Vec<u8>, limit: usize) -> (r: Result<Vec<u8>, StatusCode>)
    ensures
        match r {
            Ok(decoded) => decode_chunked(body@, limit as nat, Seq::empty()) == Ok::<
                Seq<u8>,
                StatusCode,
            >(decoded@),
            Err(code) => decode_chunked(body@, limit as nat, Seq::empty()) == Err::<
                Seq<u8>,
                StatusCode,
            >(code),
        },
{
    let mut acc: Vec<u8> = Vec::new();
    let mut remaining: &[u8] = body.as_slice();
    while remaining.len() > 0
        invariant
            decode_chunked(body@, limit as nat, Seq::empty()) == decode_chunked(
                remaining@,
                limit as nat,
                acc@,
            ),
            acc.len() <= limit,
        decreases remaining.len(),
    {
        match split_once_str(remaining, 13, 10) {
            None => {
                return Err(StatusCode { code: BAD_REQUEST });
            },
            Some((token, rest)) => {
                proof {
                    crate::text::lemma_find_from(remaining@, seq![13u8, 10u8], 0);
                }
                match parse_chunk_size(token) {
                    None => {
                        return Err(StatusCode { code: BAD_REQUEST });
                    },
                    Some(n) => {
                        if n == 0 {
                            return Ok(acc);
                        }
                        if rest.len() < 2 || rest.len() - 2 < n {
                            return Err(StatusCode { code: BAD_REQUEST });
                        }
                        if rest[n] != 13 || rest[n + 1] != 10 {
                            return Err(StatusCode { code: BAD_REQUEST });
                        }
                        if n > limit - acc.len() {
                            return Err(StatusCode { code: PAYLOAD_TOO_LARGE });
                        }
                        let ghost data = remaining@;
                        let ghost before = acc@;
                        acc.extend_from_slice(slice_subrange(rest, 0, n));
                        remaining = slice_subrange(rest, n + 2, rest.len());
                        proof {
                            assert(rest@.subrange(0, n as int) == rest@.take(n as int));
                            assert(rest@.subrange(n + 2, rest@.len() as int) == rest@.skip(n + 2));
                            assert(chunk_size(token@) == Some(n as nat));
                            assert(acc@ == before + rest@.take(n as int));
                            assert(remaining@ == rest@.skip(n + 2));
                            assert(decode_chunked(data, limit as nat, before) == decode_chunked(
                                rest@.skip(n + 2),
                                limit as nat,
                                before + rest@.take(n as int),
                            ));
                        }
                    },
                }
            },
        }
    }
    Ok(acc)
}

/// The fields that header lines give: for each line that splits into a name
/// and a value, both folded to lower case.
pub open spec fn header_fields(lines: Seq<Seq<char>>) -> Fields
    decreases lines.len(),
{
    if lines.len() == 0 {
        Seq::empty()
    } else {
        let rest = header_fields(lines.drop_last());
        match header_of(lines.last()) {
            Some((name, value)) => rest.push((to_lower(name), to_lower(value))),
            None => rest,
        }
    }
}

/// The fields of a request's head.
pub open spec fn request_fields(head: Seq<char>) -> Fields {
    header_fields(header_lines(head))
}

/// The length that the fields declare for the body: the number that the first
/// `content-length` writes, zero where there is none, nothing where it
/// writes no number.
pub open spec fn declared_length(fields: Fields) -> Option<nat> {
    match field(fields, "content-length"@) {
        None => Some(0),
        Some(value) => decimal_value(trim(value)),
    }
}

/// The body of a request that is not chunked: the first bytes of what came
/// after the head, as many as the fields declare. A declaration that cannot
/// be read, or more bytes declared than came, make a bad request; a length
/// above the limit is too large.
pub open spec fn plain_body(fields: Fields, body: Seq<u8>, limit: nat) -> Result<
    Seq<u8>,
    StatusCode,
> {
    match declared_length(fields) {
        None => Err(StatusCode { code: BAD_REQUEST }),
        Some(n) => if n > limit {
            Err(StatusCode { code: PAYLOAD_TOO_LARGE })
        } else if body.len() < n {
            Err(StatusCode { code: BAD_REQUEST })
        } else {
            Ok(body.take(n as int))
        },
    }
}

/// The body of a request whose target or fields were refused: nothing can be
/// read from its fields, and only its length is held against the limit.
pub open spec fn unread_body(body: Seq<u8>, limit: nat) -> Result<Seq<u8>, StatusCode> {
    if body.len() > limit {
        Err(StatusCode { code: PAYLOAD_TOO_LARGE })
    } else {
        Ok(body)
    }
}

/// The request that a head, the bytes after it and the parts of its target
/// make; `fit` says whether the map of headers took the fields. The version
/// is read first, then the method. The body is decoded next: chunked where
/// the fields say so, else by its declared length. A target or a field that
/// was refused, or fields that did not fit, make a bad request, but only
/// after the body was held against the limit.
pub open spec fn assembled(
    limit: nat,
    head: Seq<char>,
    body: Seq<u8>,
    target: Option<(Seq<char>, Option<Seq<char>>, Option<u16>)>,
    fit: bool,
) -> Result<RequestView, StatusCode> {
    match version_of(head) {
        Err(code) => Err(code),
        Ok(version) => match method_of(head) {
            Err(code) => Err(code),
            Ok(method) => {
                let fields = request_fields(head);
                let sound = target is Some && fit && fields_accepted(fields);
                let payload = if !sound {
                    unread_body(body, limit)
                } else if chunked(Some(fields)) {
                    decode_chunked(body, limit, Seq::empty())
                } else {
                    plain_body(fields, body, limit)
                };
                match payload {
                    Err(code) => Err(code),
                    Ok(bytes) => if !sound {
                        Err(StatusCode { code: BAD_REQUEST })
                    } else {
                        Ok(
                            RequestView {
                                method,
                                uri: path_of(head),
                                path: target.unwrap().0,
                                query: target.unwrap().1,
                                port: target.unwrap().2,
                                version,
                                headers: fields,
                                body: bytes,
                            },
                        )
                    },
                }
            },
        },
    }
}

/// Reads the fields of a request's head, and whether all of them are
/// accepted.
pub fn read_fields(head: &str) -> (r: (Vec<(String, String)>, bool))
    ensures
        r.0.deep_view() == request_fields(head@),
        r.1 == fields_accepted(request_fields(head@)),
{
    let lines = get_headers(head);
    let ghost all = lines.deep_view();
    let mut fields: Vec<(String, String)> = Vec::new();
    let mut accepted: bool = true;
    let mut i: usize = 0;
    assert(fields.deep_view() == Fields::empty());
    while i < lines.len()
        invariant
            i <= lines.len(),
            all == lines.deep_view(),
            fields.deep_view() == header_fields(all.take(i as int)),
            accepted == fields_accepted(fields.deep_view()),
        decreases lines.len() - i,
    {
        proof {
            assert(all.take(i + 1).drop_last() == all.take(i as int));
            assert(all.take(i + 1).last() == lines[i as int]@);
        }
        match format_header(lines[i]) {
            Some((name, value)) => {
                let key = lowercase(name);
                let text = lowercase(value);
                let ghost before = fields.deep_view();
                proof {
                    lemma_fields_accepted_push(before, key@, text@);
                }
                if !header_name_ok(key.as_str()) || !header_value_ok(text.as_str()) {
                    accepted = false;
                }
                fields.push((key, text));
                assert(fields.deep_view() == before.push((to_lower(name@), to_lower(value@))));
            },
            None => {},
        }
        i += 1;
    }
    proof {
        assert(all.take(lines.len() as int) == all);
    }
    (fields, accepted)
}

/// Reads the length that the fields declare, against a cap.
pub fn read_declared_length(fields: &Vec<(String, String)>, cap: usize) -> (r: Capped)
    ensures
        match r {
            Capped::Malformed => declared_length(fields.deep_view()) is None,
            Capped::Above => declared_length(fields.deep_view()) matches Some(n) && n > cap,
            Capped::Within(v) => declared_length(fields.deep_view()) == Some(v as nat) && v <= cap,
        },
{
    match find_header(fields, "content-length") {
        None => Capped::Within(0),
        Some(value) => {
            let chars = chars_of(value.as_str());
            let end: usize = trimmed_end(chars.as_slice(), chars.len());
            let kept = slice_subrange(chars.as_slice(), 0, end);
            let start: usize = skip_whitespace(kept, 0);
            let digits = slice_subrange(kept, start, end);
            proof {
                assert(kept@ == trim_end(value@));
                assert(digits@ == trim(value@));
            }
            parse_decimal(digits, cap)
        },
    }
}

/// Takes the declared number of bytes from what came after the head.
pub fn read_plain_body(fields: &Vec<(String, String)>, body: Vec<u8>, limit: usize) -> (r: Result<
    Vec<u8>,
    StatusCode,
>)
    ensures
        match r {
            Ok(bytes) => plain_body(fields.deep_view(), body@, limit as nat) == Ok::<
                Seq<u8>,
                StatusCode,
            >(bytes@),
            Err(code) => plain_body(fields.deep_view(), body@, limit as nat) == Err::<
                Seq<u8>,
                StatusCode,
            >(code),
        },
{
    let declared: usize = match read_declared_length(fields, limit) {
        Capped::Malformed => {
            return Err(StatusCode { code: BAD_REQUEST });
        },
        Capped::Above => {
            return Err(StatusCode { code: PAYLOAD_TOO_LARGE });
        },
        Capped::Within(n) => n,
    };
    if body.len() < declared {
        return Err(StatusCode { code: BAD_REQUEST });
    }
    let mut bytes = body;
    bytes.truncate(declared);
    get_body(bytes, limit)
}

/// Makes a request of a head, the bytes after it, what the target of the
/// head was parsed into, and whether the map of headers took the fields.
pub fn assemble_request(
    conf: &ServerConfig,
    request_parts: (String, Vec<u8>),
    target: Option<Target>,
    fit: bool,
) -> (r: Result<Request, StatusCode>)
    ensures
        match r {
            Ok(request) => assembled(
                conf.body_size_limit as nat,
                request_parts.0@,
                request_parts.1@,
                match target {
                    Some(t) => Some(t.parts()),
                    None => None,
                },
                fit,
            ) == Ok::<RequestView, StatusCode>(request@),
            Err(code) => assembled(
                conf.body_size_limit as nat,
                request_parts.0@,
                request_parts.1@,
                match target {
                    Some(t) => Some(t.parts()),
                    None => None,
                },
                fit,
            ) == Err::<RequestView, StatusCode>(code),
        },
{
    let (text, body) = request_parts;
    let head = text.as_str();
    let version = match get_version(head) {
        Ok(version) => version,
        Err(code) => {
            return Err(code);
        },
    };
    let method = match get_method(head) {
        Ok(method) => method,
        Err(code) => {
            return Err(code);
        },
    };
    let (fields, accepted) = read_fields(head);
    let limit: usize = conf.body_size_limit;
    match target {
        Some(parts) => {
            if fit && accepted {
                let bytes = if is_chunked(Some(&fields)) {
                    match get_chunked_body(body, limit) {
                        Ok(bytes) => bytes,
                        Err(code) => {
                            return Err(code);
                        },
                    }
                } else {
                    match read_plain_body(&fields, body, limit) {
                        Ok(bytes) => bytes,
                        Err(code) => {
                            return Err(code);
                        },
                    }
                };
                Ok(
                    Request {
                        method,
                        uri: String::from_str(get_path(head)),
                        path: parts.path,
                        query: parts.query,
                        port: parts.port,
                        version,
                        headers: fields,
                        body: bytes,
                    },
                )
            } else {
                match get_body(body, limit) {
                    Ok(_) => Err(StatusCode { code: BAD_REQUEST }),
                    Err(code) => Err(code),
                }
            }
        },
        None => match get_body(body, limit) {
            Ok(_) => Err(StatusCode { code: BAD_REQUEST }),
            Err(code) => Err(code),
        },
    }
}

/// Makes a request of a head and the bytes after it.
pub fn get_request(conf: &ServerConfig, request_parts: (String, Vec<u8>)) -> (r: Result<
    Request,
    StatusCode,
>)
    ensures
        match r {
            Ok(request) => assembled(
                conf.body_size_limit as nat,
                request_parts.0@,
                request_parts.1@,
                target_parts(path_of(request_parts.0@)),
                fields_fit(request_fields(request_parts.0@)),
            ) == Ok::<RequestView, StatusCode>(request@),
            Err(code) => assembled(
                conf.body_size_limit as nat,
                request_parts.0@,
                request_parts.1@,
                target_parts(path_of(request_parts.0@)),
                fields_fit(request_fields(request_parts.0@)),
            ) == Err::<RequestView, StatusCode>(code),
        },
{
    let target = parse_target(get_path(request_parts.0.as_str()));
    let (fields, _) = read_fields(request_parts.0.as_str());
    let fit = headers_fit(&fields);
    assemble_request(conf, request_parts, target, fit)
}

/// A request that is not chunked and declares a length has a body of exactly
/// that many bytes: the first bytes of what came after the head.
pub proof fn lemma_declared_length_is_delivered(
    limit: nat,
    head: Seq<char>,
    body: Seq<u8>,
    target: Option<(Seq<char>, Option<Seq<char>>, Option<u16>)>,
    fit: bool,
    n: nat,
)
    requires
        assembled(limit, head, body, target, fit) is Ok,
        !chunked(Some(request_fields(head))),
        declared_length(request_fields(head)) == Some(n),
    ensures
        assembled(limit, head, body, target, fit).unwrap().body == body.take(n as int),
        assembled(limit, head, body, target, fit).unwrap().body.len() == n,
        n <= limit,
{
}

/// Folding to lower case twice is folding once.
pub proof fn lemma_to_lower_idempotent(s: Seq<char>)
    ensures
        to_lower(to_lower(s)) == to_lower(s),
{
    assert forall|i: int| 0 <= i < s.len() implies to_lower(to_lower(s))[i] == to_lower(s)[i] by {
        assert(lower_char(lower_char(s[i])) == lower_char(s[i]));
    }
}

/// The names of the fields that header lines give are in lower case.
pub proof fn lemma_field_names_are_lower(lines: Seq<Seq<char>>, i: int)
    requires
        0 <= i < header_fields(lines).len(),
    ensures
        to_lower(header_fields(lines)[i].0) == header_fields(lines)[i].0,
    decreases lines.len(),
{
    if lines.len() > 0 {
        let rest = header_fields(lines.drop_last());
        if i < rest.len() {
            lemma_field_names_are_lower(lines.drop_last(), i);
        } else {
            lemma_to_lower_idempotent(header_of(lines.last()).unwrap().0);
        }
    }
}

/// The fields do not depend on the case of the names in the lines: two lists
/// of lines that split alike, with the same values, and with names that
/// differ in case only, give the same fields.
pub proof fn lemma_fields_ignore_case(a: Seq<Seq<char>>, b: Seq<Seq<char>>)
    requires
        a.len() == b.len(),
        forall|i: int|
            0 <= i < a.len() ==> match (#[trigger] header_of(a[i]), header_of(b[i])) {
                (Some((name_a, value_a)), Some((name_b, value_b))) => to_lower(name_a) == to_lower(
                    name_b,
                ) && value_a == value_b,
                (None, None) => true,
                _ => false,
            },
    ensures
        header_fields(a) == header_fields(b),
    decreases a.len(),
{
    if a.len() > 0 {
        assert forall|i: int| 0 <= i < a.drop_last().len() implies match (
            #[trigger] header_of(a.drop_last()[i]),
            header_of(b.drop_last()[i]),
        ) {
            (Some((name_a, value_a)), Some((name_b, value_b))) => to_lower(name_a) == to_lower(
                name_b,
            ) && value_a == value_b,
            (None, None) => true,
            _ => false,
        } by {
            assert(a.drop_last()[i] == a[i]);
            assert(b.drop_last()[i] == b[i]);
        }
        lemma_fields_ignore_case(a.drop_last(), b.drop_last());
        let k = a.len() - 1;
        assert(a.last() == a[k]);
        assert(b.last() == b[k]);
    }
}

} // verus!
