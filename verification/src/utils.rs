//! A plain reading of a request and a plain writing of a response.

use crate::text::{
    chars_of, decimal, find, find_chars, join, pieces, push_decimal, push_str, skip_whitespace,
    split, split_chars, string_of, trim, trim_end, trimmed_end, word_ranges, words,
};
use vstd::prelude::*;
use vstd::slice::slice_subrange;

verus! {

/// A line without the carriage return that may end it.
pub open spec fn strip_cr(line: Seq<char>) -> Seq<char> {
    if line.len() > 0 && line.last() == '\r' {
        line.drop_last()
    } else {
        line
    }
}

/// The lines of a text. A line ends with a line feed, or with a carriage
/// return and a line feed; what follows the last line feed is a line too
/// where it is not empty.
pub open spec fn text_lines(s: Seq<char>) -> Seq<Seq<char>> {
    let parts = split(s, seq!['\n']);
    let n = parts.len() - 1;
    let whole = Seq::new(n as nat, |i: int| strip_cr(parts[i]));
    if parts[n].len() > 0 {
        whole.push(parts[n])
    } else {
        whole
    }
}

/// The word of a text at an index; empty where there is none.
pub open spec fn word_or_empty(text: Seq<char>, index: int) -> Seq<char> {
    if 0 <= index < words(text).len() {
        words(text)[index]
    } else {
        Seq::empty()
    }
}

/// The name and the value that a header line gives: what stands before and
/// after its first colon, without the white space around them.
pub open spec fn entry_of(line: Seq<char>) -> Option<(Seq<char>, Seq<char>)> {
    match find(line, seq![':']) {
        Some(i) => Some((trim(line.take(i)), trim(line.skip(i + 1)))),
        None => None,
    }
}

/// The index of the first entry called `name`, at or after `from`.
pub open spec fn position(entries: Seq<(Seq<char>, Seq<char>)>, name: Seq<char>, from: int)
    -> Option<int>
    decreases entries.len() - from,
{
    if from < 0 || from >= entries.len() {
        None
    } else if entries[from].0 == name {
        Some(from)
    } else {
        position(entries, name, from + 1)
    }
}

/// The entries with a value set for a name: the entry of that name takes the
/// value, and where there is none the name and the value are added.
pub open spec fn upsert(
    entries: Seq<(Seq<char>, Seq<char>)>,
    name: Seq<char>,
    value: Seq<char>,
) -> Seq<(Seq<char>, Seq<char>)> {
    match position(entries, name, 0) {
        Some(i) => entries.update(i, (name, value)),
        None => entries.push((name, value)),
    }
}

/// The headers that the lines from index `from` on give, added to
/// `entries`: the lines up to the first empty one, each with a colon in it
/// setting a value for a name.
pub open spec fn headers_from(
    lines: Seq<Seq<char>>,
    from: int,
    entries: Seq<(Seq<char>, Seq<char>)>,
) -> Seq<(Seq<char>, Seq<char>)>
    decreases lines.len() - from,
{
    if from < 0 || from >= lines.len() || lines[from].len() == 0 {
        entries
    } else {
        match entry_of(lines[from]) {
            Some((name, value)) => headers_from(lines, from + 1, upsert(entries, name, value)),
            None => headers_from(lines, from + 1, entries),
        }
    }
}

/// No name stands in two of the entries.
pub open spec fn distinct_names(entries: Seq<(Seq<char>, Seq<char>)>) -> bool {
    forall|i: int, j: int| 0 <= i < j < entries.len() ==> entries[i].0 != entries[j].0
}

/// `position` finds the first entry of a name, if there is one.
pub proof fn lemma_position(entries: Seq<(Seq<char>, Seq<char>)>, name: Seq<char>, from: int)
    requires
        0 <= from,
    ensures
        match position(entries, name, from) {
            Some(i) => from <= i < entries.len() && entries[i].0 == name,
            None => forall|k: int| from <= k < entries.len() ==> entries[k].0 != name,
        },
    decreases entries.len() - from,
{
    if from < entries.len() && entries[from].0 != name {
        lemma_position(entries, name, from + 1);
    }
}

/// Headers read into entries with distinct names have distinct names: a
/// name that comes again takes the place of the earlier one.
pub proof fn lemma_headers_distinct(
    lines: Seq<Seq<char>>,
    from: int,
    entries: Seq<(Seq<char>, Seq<char>)>,
)
    requires
        0 <= from,
        distinct_names(entries),
    ensures
        distinct_names(headers_from(lines, from, entries)),
    decreases lines.len() - from,
{
    if from < lines.len() && lines[from].len() > 0 {
        match entry_of(lines[from]) {
            Some((name, value)) => {
                lemma_position(entries, name, 0);
                lemma_headers_distinct(lines, from + 1, upsert(entries, name, value));
            },
            None => {
                lemma_headers_distinct(lines, from + 1, entries);
            },
        }
    }
}

/// The index of the first empty line at or after `from`; where there is
/// none, the number of lines, or `from` if it is beyond them.
pub open spec fn head_end(lines: Seq<Seq<char>>, from: int) -> int
    decreases lines.len() - from,
{
    if from < 0 || from >= lines.len() || lines[from].len() == 0 {
        from
    } else {
        head_end(lines, from + 1)
    }
}

/// The lines of the body: those that follow the first empty line after the
/// first line, none where no line is empty.
pub open spec fn body_lines(lines: Seq<Seq<char>>) -> Seq<Seq<char>> {
    let end = head_end(lines, 1);
    if end < lines.len() {
        lines.skip(end + 1)
    } else {
        Seq::empty()
    }
}

/// What is read out of a request.
pub struct Parsed {
    pub method: Seq<char>,
    pub path: Seq<char>,
    pub headers: Seq<(Seq<char>, Seq<char>)>,
    pub body: Seq<char>,
}

/// What is read out of a request: the first two words of its first line,
/// the headers of the lines that follow up to the first empty line, and as
/// its body the lines after that empty line, with a line feed between them.
pub open spec fn parsed(request: Seq<char>) -> Parsed {
    let lines = text_lines(request);
    let first = if lines.len() > 0 {
        lines[0]
    } else {
        Seq::empty()
    };
    Parsed {
        method: word_or_empty(first, 0),
        path: word_or_empty(first, 1),
        headers: headers_from(lines, 1, Seq::empty()),
        body: join(body_lines(lines), seq!['\n']),
    }
}

/// The characters of each of the rows.
pub open spec fn rows(v: Seq<Vec<char>>) -> Seq<Seq<char>> {
    Seq::new(v.len(), |i: int| v[i]@)
}

/// The lines of a text.
pub fn lines_of(text: &[char]) -> (r: Vec<Vec<char>>)
    ensures
        rows(r@) == text_lines(text@),
{
    let mut feed: Vec<char> = Vec::new();
    feed.push('\n');
    assert(feed@ == seq!['\n']);
    let ranges = split_chars(text, feed.as_slice());
    let ghost parts = split(text@, seq!['\n']);
    let count: usize = ranges.len() - 1;
    let mut out: Vec<Vec<char>> = Vec::new();
    let mut i: usize = 0;
    while i < count
        invariant
            i <= count,
            count == ranges.len() - 1,
            parts == pieces(text@, ranges@),
            crate::text::ranges_within(ranges@, text@.len()),
            rows(out@) == Seq::new(i as nat, |k: int| strip_cr(parts[k])),
        decreases count - i,
    {
        let (a, b) = ranges[i];
        assert(parts[i as int] == text@.subrange(a as int, b as int));
        let end: usize = if b > a && text[b - 1] == '\r' {
            b - 1
        } else {
            b
        };
        let mut line: Vec<char> = Vec::new();
        line.extend_from_slice(slice_subrange(text, a, end));
        proof {
            let piece = text@.subrange(a as int, b as int);
            if b > a {
                assert(piece.last() == text@[b - 1]);
            }
            assert(line@ == strip_cr(piece));
        }
        let ghost before = rows(out@);
        out.push(line);
        assert(rows(out@) == before.push(strip_cr(parts[i as int])));
        assert(rows(out@) == Seq::new((i + 1) as nat, |k: int| strip_cr(parts[k])));
        i += 1;
    }
    let (a, b) = ranges[count];
    assert(parts[count as int] == text@.subrange(a as int, b as int));
    if b > a {
        let mut line: Vec<char> = Vec::new();
        line.extend_from_slice(slice_subrange(text, a, b));
        assert(line@ == parts[count as int]);
        let ghost before = rows(out@);
        out.push(line);
        assert(rows(out@) == before.push(parts[count as int]));
    }
    out
}

/// A text without the white space around it.
pub fn trimmed(text: &[char]) -> (r: Vec<char>)
    ensures
        r@ == trim(text@),
{
    let end: usize = trimmed_end(text, text.len());
    let kept = slice_subrange(text, 0, end);
    let start: usize = skip_whitespace(kept, 0);
    let mut out: Vec<char> = Vec::new();
    out.extend_from_slice(slice_subrange(kept, start, end));
    proof {
        assert(kept@ == trim_end(text@));
        assert(out@ == kept@.skip(start as int));
    }
    out
}

/// Sets a value for a name among the entries.
pub fn set_entry(entries: &mut Vec<(String, String)>, name: String, value: String)
    ensures
        final(entries).deep_view() == upsert(old(entries).deep_view(), name@, value@),
{
    let ghost before = entries.deep_view();
    let mut i: usize = 0;
    while i < entries.len()
        invariant
            i <= entries.len(),
            entries.deep_view() == before,
            before == old(entries).deep_view(),
            position(before, name@, 0) == position(before, name@, i as int),
        decreases entries.len() - i,
    {
        if crate::text::str_equal(entries[i].0.as_str(), name.as_str()) {
            proof {
                assert(before[i as int].0 == name@);
                assert(position(before, name@, i as int) == Some(i as int));
            }
            entries.set(i, (name, value));
            assert(entries.deep_view() == before.update(i as int, (name@, value@)));
            return ;
        }
        proof {
            assert(before[i as int].0 != name@);
        }
        i += 1;
    }
    entries.push((name, value));
    assert(entries.deep_view() == before.push((name@, value@)));
}

/// The word of a line at an index, empty where there is none.
pub fn word_of(line: &[char], index: usize) -> (r: String)
    ensures
        r@ == word_or_empty(line@, index as int),
{
    let ranges = word_ranges(line);
    assert(pieces(line@, ranges@).len() == ranges.len());
    if index < ranges.len() {
        let (a, b) = ranges[index];
        assert(pieces(line@, ranges@)[index as int] == line@.subrange(a as int, b as int));
        string_of(slice_subrange(line, a, b))
    } else {
        String::new()
    }
}

/// The headers that the lines after the first give, and the index at which
/// they end.
pub fn read_headers(lines: &Vec<Vec<char>>) -> (r: (Vec<(String, String)>, usize))
    ensures
        r.0.deep_view() == headers_from(rows(lines@), 1, Seq::empty()),
        r.1 == head_end(rows(lines@), 1),
{
    let ghost all = rows(lines@);
    let mut headers: Vec<(String, String)> = Vec::new();
    assert(headers.deep_view() == Seq::<(Seq<char>, Seq<char>)>::empty());
    let mut colon: Vec<char> = Vec::new();
    colon.push(':');
    let mut i: usize = 1;
    while i < lines.len() && lines[i].len() > 0
        invariant
            1 <= i,
            all == rows(lines@),
            colon@ == seq![':'],
            headers_from(all, 1, Seq::empty()) == headers_from(all, i as int, headers.deep_view()),
            head_end(all, 1) == head_end(all, i as int),
        decreases lines.len() - i,
    {
        let line = lines[i].as_slice();
        assert(all[i as int] == line@);
        match find_chars(line, colon.as_slice(), 0) {
            Some(at) => {
                let name = trimmed(slice_subrange(line, 0, at));
                let value = trimmed(slice_subrange(line, at + 1, line.len()));
                proof {
                    assert(line@.subrange(0, at as int) == line@.take(at as int));
                    assert(line@.subrange(at + 1, line.len() as int) == line@.skip(at + 1));
                }
                set_entry(
                    &mut headers,
                    string_of(name.as_slice()),
                    string_of(value.as_slice()),
                );
            },
            None => {},
        }
        i += 1;
    }
    proof {
        if i < lines.len() {
            assert(all[i as int].len() == 0);
        }
    }
    (headers, i)
}

/// The lines from index `from` on, with a line feed between them.
pub fn join_rest(lines: &Vec<Vec<char>>, from: usize) -> (body: Vec<char>)
    requires
        from <= lines.len(),
    ensures
        body@ == join(rows(lines@).skip(from as int), seq!['\n']),
{
    let ghost all = rows(lines@);
    let ghost rest = all.skip(from as int);
    let mut body: Vec<char> = Vec::new();
    let mut k: usize = from;
    assert(rest.take(0).len() == 0);
    while k < lines.len()
        invariant
            from <= k <= lines.len(),
            all == rows(lines@),
            rest == all.skip(from as int),
            body@ == join(rest.take(k - from), seq!['\n']),
        decreases lines.len() - k,
    {
        let ghost before = body@;
        if k > from {
            body.push('\n');
        }
        body.extend_from_slice(lines[k].as_slice());
        proof {
            let now = rest.take(k - from + 1);
            assert(now.drop_last() == rest.take(k - from));
            assert(now.last() == lines[k as int]@);
            if k == from {
                assert(now.len() == 1);
                assert(now[0] == lines[k as int]@);
                assert(before == Seq::<char>::empty());
            } else {
                assert(body@ == before + seq!['\n'] + lines[k as int]@);
            }
        }
        k += 1;
    }
    proof {
        assert(rest.take(lines.len() - from) == rest);
    }
    body
}

/// Reads a request: its method, its path, its headers, its body.
pub fn parse_request(request: &str) -> (r: (String, String, Vec<(String, String)>, String))
    ensures
        r.0@ == parsed(request@).method,
        r.1@ == parsed(request@).path,
        r.2.deep_view() == parsed(request@).headers,
        distinct_names(r.2.deep_view()),
        r.3@ == parsed(request@).body,
{
    proof {
        lemma_headers_distinct(text_lines(request@), 1, Seq::empty());
    }
    let chars = chars_of(request);
    let lines = lines_of(chars.as_slice());
    let (headers, end) = read_headers(&lines);
    if lines.len() == 0 {
        let none: Vec<char> = Vec::new();
        let method = word_of(none.as_slice(), 0);
        let path = word_of(none.as_slice(), 1);
        return (method, path, headers, String::new());
    }
    let first = lines[0].as_slice();
    assert(rows(lines@)[0] == first@);
    let method = word_of(first, 0);
    let path = word_of(first, 1);
    if end >= lines.len() {
        assert(join(Seq::<Seq<char>>::empty(), seq!['\n']) == Seq::<char>::empty());
        return (method, path, headers, String::new());
    }
    let body = join_rest(&lines, end + 1);
    (method, path, headers, string_of(body.as_slice()))
}

/// A response as it is sent: the status line, the length of the body in
/// bytes, an empty line, the body.
pub open spec fn response_text(status_code: u16, status_text: Seq<char>, body: Seq<char>) -> Seq<
    char,
> {
    "HTTP/1.1 "@ + decimal(status_code as nat) + " "@ + status_text + "\r\nContent-Length: "@
        + decimal(vstd::utf8::encode_utf8(body).len()) + "\r\n\r\n"@ + body
}

/// Writes a response.
pub fn create_response(status_code: u16, status_text: &str, body: String) -> (r: String)
    ensures
        r@ == response_text(status_code, status_text@, body@),
{
    let mut out: Vec<char> = Vec::new();
    push_str(&mut out, "HTTP/1.1 ");
    push_decimal(&mut out, status_code as u64);
    push_str(&mut out, " ");
    push_str(&mut out, status_text);
    push_str(&mut out, "\r\nContent-Length: ");
    push_decimal(&mut out, body.as_str().as_bytes().len() as u64);
    push_str(&mut out, "\r\n\r\n");
    push_str(&mut out, body.as_str());
    string_of(out.as_slice())
}

} // verus!
