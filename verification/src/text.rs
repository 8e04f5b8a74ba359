//! Searching and slicing of character and byte sequences.
//!
//! The specifications are stated once, over `Seq<T>`; the executable
//! functions come in a `char` and a `u8` flavour.

use vstd::prelude::*;

verus! {

/// `pat` occurs in `s` at index `i`.
pub open spec fn matches_at<T>(s: Seq<T>, pat: Seq<T>, i: int) -> bool {
    0 <= i && i + pat.len() <= s.len() && s.subrange(i, i + pat.len()) == pat
}

/// The index of the first occurrence of `pat` in `s` that starts at `from` or
/// later.
pub open spec fn find_from<T>(s: Seq<T>, pat: Seq<T>, from: int) -> Option<int>
    decreases s.len() + 1 - from,
{
    if from < 0 || from + pat.len() > s.len() {
        None
    } else if matches_at(s, pat, from) {
        Some(from)
    } else {
        find_from(s, pat, from + 1)
    }
}

/// The index of the first occurrence of `pat` in `s`.
pub open spec fn find<T>(s: Seq<T>, pat: Seq<T>) -> Option<int> {
    find_from(s, pat, 0)
}

/// `pat` occurs somewhere in `s`.
pub open spec fn contains_seq<T>(s: Seq<T>, pat: Seq<T>) -> bool {
    find(s, pat) is Some
}

/// `s` begins with `pat`.
pub open spec fn starts_with<T>(s: Seq<T>, pat: Seq<T>) -> bool {
    matches_at(s, pat, 0)
}

/// `s` ends with `pat`.
pub open spec fn ends_with<T>(s: Seq<T>, pat: Seq<T>) -> bool {
    matches_at(s, pat, s.len() - pat.len())
}

/// What `find_from` returns is the least match at or after `from`.
pub proof fn lemma_find_from<T>(s: Seq<T>, pat: Seq<T>, from: int)
    requires
        0 <= from,
    ensures
        match find_from(s, pat, from) {
            Some(i) => from <= i && matches_at(s, pat, i) && forall|j: int|
                from <= j < i ==> !matches_at(s, pat, j),
            None => forall|j: int| from <= j ==> !matches_at(s, pat, j),
        },
    decreases s.len() + 1 - from,
{
    if from + pat.len() > s.len() {
    } else if matches_at(s, pat, from) {
    } else {
        lemma_find_from(s, pat, from + 1);
    }
}

/// A least match at or after `from` is what `find_from` returns.
pub proof fn lemma_find_from_is<T>(s: Seq<T>, pat: Seq<T>, from: int, i: int)
    requires
        0 <= from <= i,
        matches_at(s, pat, i),
        forall|j: int| from <= j < i ==> !matches_at(s, pat, j),
    ensures
        find_from(s, pat, from) == Some(i),
{
    lemma_find_from(s, pat, from);
}

/// `pat` occurs in `s` at index `i`.
pub fn chars_match_at(s: &[char], pat: &[char], i: usize) -> (r: bool)
    ensures
        r == matches_at(s@, pat@, i as int),
{
    if pat.len() > s.len() || i > s.len() - pat.len() {
        return false;
    }
    let mut j: usize = 0;
    while j < pat.len()
        invariant
            j <= pat.len(),
            i + pat.len() <= s.len(),
            s@.subrange(i as int, i + j) == pat@.subrange(0, j as int),
        decreases pat.len() - j,
    {
        if s[i + j] != pat[j] {
            proof {
                let k = j as int;
                assert(s@.subrange(i as int, i + pat.len())[k] != pat@[k]);
            }
            return false;
        }
        proof {
            assert(s@.subrange(i as int, i + j + 1) == s@.subrange(i as int, i + j).push(
                s@[i + j],
            ));
            assert(pat@.subrange(0, j + 1) == pat@.subrange(0, j as int).push(pat@[j as int]));
        }
        j += 1;
    }
    proof {
        assert(pat@.subrange(0, pat.len() as int) == pat@);
    }
    true
}

/// The index of the first occurrence of `pat` in `s` at or after `from`.
pub fn find_chars(s: &[char], pat: &[char], from: usize) -> (r: Option<usize>)
    ensures
        r is Some == find_from(s@, pat@, from as int) is Some,
        r matches Some(i) ==> find_from(s@, pat@, from as int) == Some(i as int),
        r matches Some(i) ==> from <= i && i + pat.len() <= s.len(),
{
    if pat.len() > s.len() {
        return None;
    }
    let last: usize = s.len() - pat.len();
    let mut i: usize = from;
    while i <= last
        invariant
            from <= i,
            last == s.len() - pat.len(),
            find_from(s@, pat@, from as int) == find_from(s@, pat@, i as int),
        decreases last + 1 - i,
    {
        if chars_match_at(s, pat, i) {
            return Some(i);
        }
        if i == last {
            assert(find_from(s@, pat@, i + 1) is None);
            return None;
        }
        i += 1;
    }
    None
}

/// The pieces of `s` between the occurrences of `pat`, searched from left to
/// right without overlap, starting at index `from`.
pub open spec fn split_from<T>(s: Seq<T>, pat: Seq<T>, from: int) -> Seq<Seq<T>>
    decreases s.len() - from,
    when pat.len() > 0 && 0 <= from <= s.len()
{
    match find_from(s, pat, from) {
        Some(i) => {
            proof {
                lemma_find_from(s, pat, from);
            }
            seq![s.subrange(from, i)] + split_from(s, pat, i + pat.len())
        },
        None => seq![s.subrange(from, s.len() as int)],
    }
}

/// The pieces of `s` between the occurrences of the non-empty `pat`.
pub open spec fn split<T>(s: Seq<T>, pat: Seq<T>) -> Seq<Seq<T>> {
    split_from(s, pat, 0)
}

/// The subsequences of `s` that a list of index ranges selects.
pub open spec fn pieces<T>(s: Seq<T>, ranges: Seq<(usize, usize)>) -> Seq<Seq<T>> {
    Seq::new(ranges.len(), |k: int| s.subrange(ranges[k].0 as int, ranges[k].1 as int))
}

/// Every range lies inside a sequence of length `len`.
pub open spec fn ranges_within(ranges: Seq<(usize, usize)>, len: nat) -> bool {
    forall|k: int| 0 <= k < ranges.len() ==> #[trigger] ranges[k].0 <= ranges[k].1 <= len
}

/// The index ranges of the pieces of `s` split on `pat`.
pub fn split_chars(s: &[char], pat: &[char]) -> (r: Vec<(usize, usize)>)
    requires
        pat.len() > 0,
    ensures
        pieces(s@, r@) == split(s@, pat@),
        ranges_within(r@, s@.len()),
        r.len() >= 1,
{
    let mut out: Vec<(usize, usize)> = Vec::new();
    let mut pos: usize = 0;
    loop
        invariant_except_break
            split(s@, pat@) == pieces(s@, out@) + split_from(s@, pat@, pos as int),
        invariant
            pat.len() > 0,
            pos <= s.len(),
            ranges_within(out@, s@.len()),
        ensures
            pieces(s@, out@) == split(s@, pat@),
            ranges_within(out@, s@.len()),
            out.len() >= 1,
        decreases s.len() - pos,
    {
        let ghost before = out@;
        match find_chars(s, pat, pos) {
            Some(i) => {
                out.push((pos, i));
                proof {
                    assert(pieces(s@, out@) == pieces(s@, before) + seq![
                        s@.subrange(pos as int, i as int),
                    ]);
                }
                pos = i + pat.len();
            },
            None => {
                out.push((pos, s.len()));
                proof {
                    assert(pieces(s@, out@) == pieces(s@, before) + seq![
                        s@.subrange(pos as int, s@.len() as int),
                    ]);
                }
                break ;
            },
        }
    }
    out
}

/// The characters with the Unicode property `White_Space`.
pub open spec fn is_whitespace(c: char) -> bool {
    let n = c as u32;
    (0x09 <= n <= 0x0D) || n == 0x20 || n == 0x85 || n == 0xA0 || n == 0x1680 || (0x2000 <= n
        <= 0x200A) || n == 0x2028 || n == 0x2029 || n == 0x202F || n == 0x205F || n == 0x3000
}

/// The character is white space.
pub fn char_is_whitespace(c: char) -> (r: bool)
    ensures
        r == is_whitespace(c),
{
    let n: u32 = c as u32;
    (0x09 <= n && n <= 0x0D) || n == 0x20 || n == 0x85 || n == 0xA0 || n == 0x1680 || (0x2000 <= n
        && n <= 0x200A) || n == 0x2028 || n == 0x2029 || n == 0x202F || n == 0x205F || n == 0x3000
}

/// An ASCII upper-case letter becomes its lower-case letter; any other
/// character stays.
pub open spec fn lower_char(c: char) -> char {
    if 'A' <= c <= 'Z' {
        ((c as u8) + 32) as char
    } else {
        c
    }
}

/// The character with an ASCII upper-case letter folded to lower case.
pub fn char_to_lower(c: char) -> (r: char)
    ensures
        r == lower_char(c),
{
    if 'A' <= c && c <= 'Z' {
        ((c as u8) + 32) as char
    } else {
        c
    }
}

/// `s` with every ASCII upper-case letter folded to lower case.
pub open spec fn to_lower(s: Seq<char>) -> Seq<char> {
    Seq::new(s.len(), |i: int| lower_char(s[i]))
}

/// The first index at or after `i` that holds no white space, or the length of
/// `s` where there is none.
pub open spec fn ws_skip(s: Seq<char>, i: int) -> int
    decreases s.len() - i,
{
    if 0 <= i < s.len() && is_whitespace(s[i]) {
        ws_skip(s, i + 1)
    } else {
        i
    }
}

/// The first index at or after `i` that holds white space, or the length of
/// `s` where there is none.
pub open spec fn word_end(s: Seq<char>, i: int) -> int
    decreases s.len() - i,
{
    if 0 <= i < s.len() && !is_whitespace(s[i]) {
        word_end(s, i + 1)
    } else {
        i
    }
}

/// The length that is left of the first `n` characters of `s` once trailing
/// white space is dropped.
pub open spec fn ws_rskip(s: Seq<char>, n: int) -> int
    decreases n,
{
    if 0 < n <= s.len() && is_whitespace(s[n - 1]) {
        ws_rskip(s, n - 1)
    } else {
        n
    }
}

/// The length that is left of the first `n` characters of `s` once trailing
/// occurrences of `c` are dropped.
pub open spec fn char_rskip(s: Seq<char>, c: char, n: int) -> int
    decreases n,
{
    if 0 < n <= s.len() && s[n - 1] == c {
        char_rskip(s, c, n - 1)
    } else {
        n
    }
}

/// `s` without trailing white space.
pub open spec fn trim_end(s: Seq<char>) -> Seq<char> {
    s.take(ws_rskip(s, s.len() as int))
}

/// `s` without leading white space.
pub open spec fn trim_start(s: Seq<char>) -> Seq<char> {
    s.skip(ws_skip(s, 0))
}

/// `s` without leading and trailing white space.
pub open spec fn trim(s: Seq<char>) -> Seq<char> {
    trim_start(trim_end(s))
}

/// `s` without trailing occurrences of `c`.
pub open spec fn trim_end_matches(s: Seq<char>, c: char) -> Seq<char> {
    s.take(char_rskip(s, c, s.len() as int))
}

/// What `ws_skip` gives lies at or after `i`, holds no white space, and only
/// white space stands before it.
pub proof fn lemma_ws_skip(s: Seq<char>, i: int)
    requires
        0 <= i <= s.len(),
    ensures
        i <= ws_skip(s, i) <= s.len(),
        ws_skip(s, i) < s.len() ==> !is_whitespace(s[ws_skip(s, i)]),
        forall|k: int| i <= k < ws_skip(s, i) ==> is_whitespace(s[k]),
    decreases s.len() - i,
{
    if i < s.len() && is_whitespace(s[i]) {
        lemma_ws_skip(s, i + 1);
    }
}

/// What `word_end` gives lies at or after `i`, holds white space, and no
/// white space stands before it.
pub proof fn lemma_word_end(s: Seq<char>, i: int)
    requires
        0 <= i <= s.len(),
    ensures
        i <= word_end(s, i) <= s.len(),
        word_end(s, i) < s.len() ==> is_whitespace(s[word_end(s, i)]),
        forall|k: int| i <= k < word_end(s, i) ==> !is_whitespace(s[k]),
        i < s.len() && !is_whitespace(s[i]) ==> i < word_end(s, i),
    decreases s.len() - i,
{
    if i < s.len() && !is_whitespace(s[i]) {
        lemma_word_end(s, i + 1);
    }
}

/// What `ws_rskip` gives is at most `n`, no white space stands right before
/// it, and only white space after it.
pub proof fn lemma_ws_rskip(s: Seq<char>, n: int)
    requires
        0 <= n <= s.len(),
    ensures
        0 <= ws_rskip(s, n) <= n,
        ws_rskip(s, n) > 0 ==> !is_whitespace(s[ws_rskip(s, n) - 1]),
        forall|k: int| ws_rskip(s, n) <= k < n ==> is_whitespace(s[k]),
    decreases n,
{
    if 0 < n && is_whitespace(s[n - 1]) {
        lemma_ws_rskip(s, n - 1);
    }
}

/// What `char_rskip` gives is at most `n`, `c` does not stand right before
/// it, and only `c` after it.
pub proof fn lemma_char_rskip(s: Seq<char>, c: char, n: int)
    requires
        0 <= n <= s.len(),
    ensures
        0 <= char_rskip(s, c, n) <= n,
        char_rskip(s, c, n) > 0 ==> s[char_rskip(s, c, n) - 1] != c,
        forall|k: int| char_rskip(s, c, n) <= k < n ==> s[k] == c,
    decreases n,
{
    if 0 < n && s[n - 1] == c {
        lemma_char_rskip(s, c, n - 1);
    }
}

/// The maximal runs of characters of `s`, from index `from` on, that hold no
/// white space.
pub open spec fn words_from(s: Seq<char>, from: int) -> Seq<Seq<char>>
    decreases s.len() - from,
    when 0 <= from <= s.len()
{
    let a = ws_skip(s, from);
    if a >= s.len() {
        Seq::empty()
    } else {
        proof {
            lemma_ws_skip(s, from);
            lemma_word_end(s, a);
        }
        let b = word_end(s, a);
        seq![s.subrange(a, b)] + words_from(s, b)
    }
}

/// The maximal runs of characters of `s` that hold no white space.
pub open spec fn words(s: Seq<char>) -> Seq<Seq<char>> {
    words_from(s, 0)
}

/// The first index at or after `from` that holds no white space.
pub fn skip_whitespace(s: &[char], from: usize) -> (r: usize)
    requires
        from <= s.len(),
    ensures
        r == ws_skip(s@, from as int),
        from <= r <= s.len(),
{
    let mut i: usize = from;
    while i < s.len() && char_is_whitespace(s[i])
        invariant
            from <= i <= s.len(),
            ws_skip(s@, from as int) == ws_skip(s@, i as int),
        decreases s.len() - i,
    {
        i += 1;
    }
    i
}

/// The first index at or after `from` that holds white space.
pub fn skip_word(s: &[char], from: usize) -> (r: usize)
    requires
        from <= s.len(),
    ensures
        r == word_end(s@, from as int),
        from <= r <= s.len(),
{
    let mut i: usize = from;
    while i < s.len() && !char_is_whitespace(s[i])
        invariant
            from <= i <= s.len(),
            word_end(s@, from as int) == word_end(s@, i as int),
        decreases s.len() - i,
    {
        i += 1;
    }
    i
}

/// The length that is left of the first `n` characters once trailing white
/// space is dropped.
pub fn trimmed_end(s: &[char], n: usize) -> (r: usize)
    requires
        n <= s.len(),
    ensures
        r == ws_rskip(s@, n as int),
        r <= n,
{
    let mut i: usize = n;
    while i > 0 && char_is_whitespace(s[i - 1])
        invariant
            i <= n <= s.len(),
            ws_rskip(s@, n as int) == ws_rskip(s@, i as int),
        decreases i,
    {
        i -= 1;
    }
    i
}

/// The length that is left of the first `n` characters once trailing
/// occurrences of `c` are dropped.
pub fn trimmed_end_matches(s: &[char], c: char, n: usize) -> (r: usize)
    requires
        n <= s.len(),
    ensures
        r == char_rskip(s@, c, n as int),
        r <= n,
{
    let mut i: usize = n;
    while i > 0 && s[i - 1] == c
        invariant
            i <= n <= s.len(),
            char_rskip(s@, c, n as int) == char_rskip(s@, c, i as int),
        decreases i,
    {
        i -= 1;
    }
    i
}

/// The index ranges of the words of `s`.
pub fn word_ranges(s: &[char]) -> (r: Vec<(usize, usize)>)
    ensures
        pieces(s@, r@) == words(s@),
        ranges_within(r@, s@.len()),
{
    let mut out: Vec<(usize, usize)> = Vec::new();
    let mut pos: usize = 0;
    loop
        invariant_except_break
            words(s@) == pieces(s@, out@) + words_from(s@, pos as int),
        invariant
            pos <= s.len(),
            ranges_within(out@, s@.len()),
        ensures
            pieces(s@, out@) == words(s@),
            ranges_within(out@, s@.len()),
        decreases s.len() - pos,
    {
        let a: usize = skip_whitespace(s, pos);
        if a >= s.len() {
            break ;
        }
        let b: usize = skip_word(s, a);
        proof {
            lemma_word_end(s@, a as int);
        }
        let ghost before = out@;
        out.push((a, b));
        proof {
            assert(pieces(s@, out@) == pieces(s@, before) + seq![s@.subrange(a as int, b as int)]);
        }
        pos = b;
    }
    out
}

/// `pat` occurs in `s` at index `i`.
pub fn bytes_match_at(s: &[u8], pat: &[u8], i: usize) -> (r: bool)
    ensures
        r == matches_at(s@, pat@, i as int),
{
    if pat.len() > s.len() || i > s.len() - pat.len() {
        return false;
    }
    let mut j: usize = 0;
    while j < pat.len()
        invariant
            j <= pat.len(),
            i + pat.len() <= s.len(),
            s@.subrange(i as int, i + j) == pat@.subrange(0, j as int),
        decreases pat.len() - j,
    {
        if s[i + j] != pat[j] {
            proof {
                let k = j as int;
                assert(s@.subrange(i as int, i + pat.len())[k] != pat@[k]);
            }
            return false;
        }
        proof {
            assert(s@.subrange(i as int, i + j + 1) == s@.subrange(i as int, i + j).push(
                s@[i + j],
            ));
            assert(pat@.subrange(0, j + 1) == pat@.subrange(0, j as int).push(pat@[j as int]));
        }
        j += 1;
    }
    proof {
        assert(pat@.subrange(0, pat.len() as int) == pat@);
    }
    true
}

/// The index of the first occurrence of `pat` in `s` at or after `from`.
pub fn find_bytes(s: &[u8], pat: &[u8], from: usize) -> (r: Option<usize>)
    ensures
        r is Some == find_from(s@, pat@, from as int) is Some,
        r matches Some(i) ==> find_from(s@, pat@, from as int) == Some(i as int),
        r matches Some(i) ==> from <= i && i + pat.len() <= s.len(),
{
    if pat.len() > s.len() {
        return None;
    }
    let last: usize = s.len() - pat.len();
    let mut i: usize = from;
    while i <= last
        invariant
            from <= i,
            last == s.len() - pat.len(),
            find_from(s@, pat@, from as int) == find_from(s@, pat@, i as int),
        decreases last + 1 - i,
    {
        if bytes_match_at(s, pat, i) {
            return Some(i);
        }
        if i == last {
            assert(find_from(s@, pat@, i + 1) is None);
            return None;
        }
        i += 1;
    }
    None
}

/// The characters of a string, in order.
pub fn chars_of(s: &str) -> (v: Vec<char>)
    ensures
        v@ == s@,
{
    let mut v: Vec<char> = Vec::new();
    for c in it: s.chars()
        invariant
            v@ == it.seq().take(it.index() as int),
            it.seq() == s@,
    {
        v.push(c);
    }
    v
}

/// Builds a string from its characters with `String::from_iter`, which
/// collects the characters of an iterator in order: the string's characters
/// are those of the slice.
#[verifier::external_body]
pub(crate) fn string_of(chars: &[char]) -> (s: String)
    ensures
        s@ == chars@,
{
    String::from_iter(chars.iter())
}

/// Two slices hold the same characters.
pub fn chars_equal(a: &[char], b: &[char]) -> (r: bool)
    ensures
        r == (a@ == b@),
{
    if a.len() != b.len() {
        return false;
    }
    let mut i: usize = 0;
    while i < a.len()
        invariant
            i <= a.len(),
            a.len() == b.len(),
            a@.take(i as int) == b@.take(i as int),
        decreases a.len() - i,
    {
        if a[i] != b[i] {
            return false;
        }
        proof {
            assert(a@.take(i + 1) == a@.take(i as int).push(a@[i as int]));
            assert(b@.take(i + 1) == b@.take(i as int).push(b@[i as int]));
        }
        i += 1;
    }
    proof {
        assert(a@.take(a.len() as int) == a@);
        assert(b@.take(b.len() as int) == b@);
    }
    true
}

/// Two strings hold the same characters.
pub fn str_equal(a: &str, b: &str) -> (r: bool)
    ensures
        r == (a@ == b@),
{
    let x = chars_of(a);
    let y = chars_of(b);
    chars_equal(x.as_slice(), y.as_slice())
}

/// The characters with ASCII upper-case letters folded to lower case.
pub fn lowered(s: &[char]) -> (r: Vec<char>)
    ensures
        r@ == to_lower(s@),
{
    let mut out: Vec<char> = Vec::new();
    let mut i: usize = 0;
    while i < s.len()
        invariant
            i <= s.len(),
            out@ == to_lower(s@).take(i as int),
        decreases s.len() - i,
    {
        out.push(char_to_lower(s[i]));
        proof {
            assert(to_lower(s@).take(i + 1) == to_lower(s@).take(i as int).push(
                lower_char(s@[i as int]),
            ));
        }
        i += 1;
    }
    proof {
        assert(to_lower(s@).take(s.len() as int) == to_lower(s@));
    }
    out
}

/// The decimal digit `d` as a character.
pub open spec fn digit_char(d: int) -> char {
    ((48 + d) as u8) as char
}

/// `n` in decimal, without leading zeros.
pub open spec fn decimal(n: nat) -> Seq<char>
    decreases n,
{
    if n < 10 {
        seq![digit_char(n as int)]
    } else {
        decimal(n / 10).push(digit_char((n % 10) as int))
    }
}

/// Appends `n` in decimal to `out`.
pub fn push_decimal(out: &mut Vec<char>, n: u64)
    ensures
        final(out)@ == old(out)@ + decimal(n as nat),
    decreases n,
{
    if n >= 10 {
        push_decimal(out, n / 10);
    }
    let d: u8 = (n % 10) as u8;
    out.push((48 + d) as char);
}

/// `c` is an ASCII decimal digit.
pub open spec fn is_digit(c: char) -> bool {
    '0' <= c <= '9'
}

/// Every character of `s` is a decimal digit.
pub open spec fn all_digits(s: Seq<char>) -> bool {
    forall|i: int| 0 <= i < s.len() ==> is_digit(#[trigger] s[i])
}

/// The number that the decimal digits of `s` write.
pub open spec fn digits_value(s: Seq<char>) -> nat
    decreases s.len(),
{
    if s.len() == 0 {
        0
    } else {
        (digits_value(s.drop_last()) * 10 + (s.last() as u8 - 48)) as nat
    }
}

/// The number that `s` writes in decimal: `s` is not empty and holds digits
/// only.
pub open spec fn decimal_value(s: Seq<char>) -> Option<nat> {
    if s.len() > 0 && all_digits(s) {
        Some(digits_value(s))
    } else {
        None
    }
}

/// A decimal number read against a cap.
pub enum Capped {
    /// Not a decimal number.
    Malformed,
    /// A decimal number above the cap.
    Above,
    /// A decimal number at or below the cap.
    Within(usize),
}

/// Reads `s` as a decimal number no greater than `cap`.
pub fn parse_decimal(s: &[char], cap: usize) -> (r: Capped)
    ensures
        match r {
            Capped::Malformed => decimal_value(s@) is None,
            Capped::Above => decimal_value(s@) matches Some(n) && n > cap,
            Capped::Within(v) => decimal_value(s@) == Some(v as nat) && v <= cap,
        },
{
    if s.len() == 0 {
        return Capped::Malformed;
    }
    let mut i: usize = 0;
    let mut value: usize = 0;
    let mut above: bool = false;
    while i < s.len()
        invariant
            i <= s.len(),
            all_digits(s@.take(i as int)),
            above ==> digits_value(s@.take(i as int)) > cap,
            !above ==> value == digits_value(s@.take(i as int)) && value <= cap,
        decreases s.len() - i,
    {
        let c: char = s[i];
        if !('0' <= c && c <= '9') {
            proof {
                assert(!is_digit(s@[i as int]));
            }
            return Capped::Malformed;
        }
        let d: usize = ((c as u8) - 48) as usize;
        proof {
            let t = s@.take(i + 1);
            assert(t.drop_last() == s@.take(i as int));
            assert(t.last() == c);
            assert forall|k: int| 0 <= k < t.len() implies is_digit(#[trigger] t[k]) by {
                if k < i {
                    assert(t[k] == s@.take(i as int)[k]);
                }
            }
        }
        if !above {
            if d > cap || value > (cap - d) / 10 {
                above = true;
            } else {
                value = value * 10 + d;
            }
        }
        i += 1;
    }
    proof {
        assert(s@.take(s.len() as int) == s@);
    }
    if above {
        Capped::Above
    } else {
        Capped::Within(value)
    }
}

/// The parts in order, with `sep` between each two of them.
pub open spec fn join(parts: Seq<Seq<char>>, sep: Seq<char>) -> Seq<char>
    decreases parts.len(),
{
    if parts.len() == 0 {
        Seq::empty()
    } else if parts.len() == 1 {
        parts[0]
    } else {
        join(parts.drop_last(), sep) + sep + parts.last()
    }
}

/// Appends the characters of `s` to `out`.
pub fn push_str(out: &mut Vec<char>, s: &str)
    ensures
        final(out)@ == old(out)@ + s@,
{
    let chars = chars_of(s);
    let ghost before = out@;
    let mut i: usize = 0;
    while i < chars.len()
        invariant
            i <= chars.len(),
            out@ == before + chars@.take(i as int),
        decreases chars.len() - i,
    {
        out.push(chars[i]);
        proof {
            assert(chars@.take(i + 1) == chars@.take(i as int).push(chars@[i as int]));
        }
        i += 1;
    }
    proof {
        assert(chars@.take(chars.len() as int) == chars@);
    }
}

/// `n` in decimal, as a string.
pub fn decimal_string(n: u64) -> (s: String)
    ensures
        s@ == decimal(n as nat),
{
    let mut out: Vec<char> = Vec::new();
    push_decimal(&mut out, n);
    string_of(out.as_slice())
}

/// A string with its ASCII letters in lower case.
pub fn lowercase(s: &str) -> (r: String)
    ensures
        r@ == to_lower(s@),
{
    let chars = chars_of(s);
    let low = lowered(chars.as_slice());
    string_of(low.as_slice())
}

/// `pat` occurs in `s`.
pub fn str_contains(s: &str, pat: &str) -> (r: bool)
    ensures
        r == contains_seq(s@, pat@),
{
    let a = chars_of(s);
    let b = chars_of(pat);
    find_chars(a.as_slice(), b.as_slice(), 0).is_some()
}

/// The greatest index below `n` at which `c` stands.
pub open spec fn rfind_char(s: Seq<char>, c: char, n: int) -> Option<int>
    decreases n,
{
    if n <= 0 || n > s.len() {
        None
    } else if s[n - 1] == c {
        Some(n - 1)
    } else {
        rfind_char(s, c, n - 1)
    }
}

/// What `rfind_char` gives holds `c`, and `c` does not stand after it.
pub proof fn lemma_rfind_char(s: Seq<char>, c: char, n: int)
    requires
        0 <= n <= s.len(),
    ensures
        match rfind_char(s, c, n) {
            Some(i) => 0 <= i < n && s[i] == c && forall|j: int| i < j < n ==> s[j] != c,
            None => forall|j: int| 0 <= j < n ==> s[j] != c,
        },
    decreases n,
{
    if n > 0 && s[n - 1] != c {
        lemma_rfind_char(s, c, n - 1);
    }
}

/// The greatest index below `n` at which `c` stands.
pub fn rfind(s: &[char], c: char, n: usize) -> (r: Option<usize>)
    requires
        n <= s.len(),
    ensures
        match r {
            Some(i) => rfind_char(s@, c, n as int) == Some(i as int) && i < n,
            None => rfind_char(s@, c, n as int) is None,
        },
{
    let mut i: usize = n;
    while i > 0
        invariant
            i <= n <= s.len(),
            rfind_char(s@, c, n as int) == rfind_char(s@, c, i as int),
        decreases i,
    {
        if s[i - 1] == c {
            return Some(i - 1);
        }
        i -= 1;
    }
    None
}

/// `s` with its first occurrence of `pat` replaced by `to`; `s` itself where
/// `pat` does not occur.
pub open spec fn replace_first(s: Seq<char>, pat: Seq<char>, to: Seq<char>) -> Seq<char> {
    match find(s, pat) {
        Some(i) => s.take(i) + to + s.skip(i + pat.len()),
        None => s,
    }
}

/// Replaces the first occurrence of `pat` in `s` by `to`.
pub fn replaced_first(s: &[char], pat: &[char], to: &[char]) -> (r: Vec<char>)
    ensures
        r@ == replace_first(s@, pat@, to@),
{
    let mut out: Vec<char> = Vec::new();
    match find_chars(s, pat, 0) {
        Some(i) => {
            out.extend_from_slice(vstd::slice::slice_subrange(s, 0, i));
            out.extend_from_slice(to);
            out.extend_from_slice(vstd::slice::slice_subrange(s, i + pat.len(), s.len()));
            proof {
                assert(s@.subrange(0, i as int) == s@.take(i as int));
                assert(s@.subrange(i + pat.len(), s.len() as int) == s@.skip(i + pat.len()));
            }
        },
        None => {
            out.extend_from_slice(s);
        },
    }
    out
}

/// A number in decimal is made of digits and writes that number.
pub proof fn lemma_decimal(n: nat)
    ensures
        decimal(n).len() > 0,
        all_digits(decimal(n)),
        digits_value(decimal(n)) == n,
        decimal_value(decimal(n)) == Some(n),
    decreases n,
{
    let s = decimal(n);
    if n < 10 {
        assert(s.drop_last() == Seq::<char>::empty());
        assert(digits_value(s.drop_last()) == 0);
        assert(is_digit(digit_char(n as int)));
        assert(s.last() == digit_char(n as int));
    } else {
        lemma_decimal(n / 10);
        let front = decimal(n / 10);
        let d = (n % 10) as int;
        assert(s.drop_last() == front);
        assert(s.last() == digit_char(d));
        assert(is_digit(digit_char(d)));
        assert forall|i: int| 0 <= i < s.len() implies is_digit(#[trigger] s[i]) by {
            if i < front.len() {
                assert(s[i] == front[i]);
            }
        }
    }
}

/// Two numbers that are written alike in decimal are the same number.
pub proof fn lemma_decimal_injective(a: nat, b: nat)
    requires
        decimal(a) == decimal(b),
    ensures
        a == b,
{
    lemma_decimal(a);
    lemma_decimal(b);
}

/// Searching in the second of two joined sequences is searching in that
/// sequence alone.
pub proof fn lemma_find_from_shift<T>(a: Seq<T>, b: Seq<T>, pat: Seq<T>, from: int)
    requires
        0 <= from,
    ensures
        find_from(a + b, pat, a.len() + from) == match find_from(b, pat, from) {
            Some(i) => Some(a.len() + i),
            None => None,
        },
    decreases b.len() + 1 - from,
{
    let s = a + b;
    let at = a.len() + from;
    if from + pat.len() <= b.len() {
        assert(s.subrange(at, at + pat.len()) == b.subrange(from, from + pat.len()));
        if !matches_at(b, pat, from) {
            lemma_find_from_shift(a, b, pat, from + 1);
        }
    }
}

/// Splitting the second of two joined sequences, from its start on, is
/// splitting that sequence alone.
pub proof fn lemma_split_from_shift<T>(a: Seq<T>, b: Seq<T>, pat: Seq<T>, from: int)
    requires
        pat.len() > 0,
        0 <= from <= b.len(),
    ensures
        split_from(a + b, pat, a.len() + from) == split_from(b, pat, from),
    decreases b.len() - from,
{
    let s = a + b;
    lemma_find_from_shift(a, b, pat, from);
    lemma_find_from(b, pat, from);
    match find_from(b, pat, from) {
        Some(i) => {
            assert(s.subrange(a.len() + from, a.len() + i) == b.subrange(from, i));
            lemma_split_from_shift(a, b, pat, i + pat.len());
        },
        None => {
            assert(s.subrange(a.len() + from, s.len() as int) == b.subrange(from, b.len() as int));
        },
    }
}

/// A sequence has no element equal to `x`.
pub open spec fn free_of<T>(s: Seq<T>, x: T) -> bool {
    forall|i: int| 0 <= i < s.len() ==> #[trigger] s[i] != x
}

/// A separator is not found in a sequence that holds nothing of what the
/// separator begins with.
pub proof fn lemma_find_none<T>(s: Seq<T>, sep: Seq<T>, from: int)
    requires
        sep.len() > 0,
        free_of(s, sep[0]),
        0 <= from,
    ensures
        find_from(s, sep, from) is None,
    decreases s.len() + 1 - from,
{
    if from + sep.len() <= s.len() {
        if matches_at(s, sep, from) {
            assert(s.subrange(from, from + sep.len())[0] == sep[0]);
            assert(s[from] == sep[0]);
        }
        lemma_find_none(s, sep, from + 1);
    }
}

/// The first separator after a sequence that holds nothing of what the
/// separator begins with stands right after that sequence.
pub proof fn lemma_find_separator<T>(x: Seq<T>, sep: Seq<T>, rest: Seq<T>)
    requires
        sep.len() > 0,
        free_of(x, sep[0]),
    ensures
        find(x + sep + rest, sep) == Some(x.len() as int),
{
    let s = x + sep + rest;
    let at = x.len() as int;
    assert(s.subrange(at, at + sep.len()) == sep);
    assert forall|j: int| 0 <= j < at implies !matches_at(s, sep, j) by {
        if matches_at(s, sep, j) {
            assert(s.subrange(j, j + sep.len())[0] == sep[0]);
            assert(s[j] == x[j]);
        }
    }
    lemma_find_from_is(s, sep, 0, at);
}

/// Joined parts are the first part, the separator, and the other parts
/// joined.
pub proof fn lemma_join_front(parts: Seq<Seq<char>>, sep: Seq<char>)
    requires
        parts.len() >= 2,
    ensures
        join(parts, sep) == parts[0] + sep + join(parts.drop_first(), sep),
    decreases parts.len(),
{
    let front = parts.drop_last();
    let others = parts.drop_first();
    if parts.len() == 2 {
        assert(front.len() == 1);
        assert(others.len() == 1);
        assert(join(front, sep) == parts[0]);
        assert(join(others, sep) == parts[1]);
        assert(parts.last() == parts[1]);
    } else {
        lemma_join_front(front, sep);
        assert(front[0] == parts[0]);
        assert(front.drop_first() == others.drop_last());
        assert(others.last() == parts.last());
        assert(join(others, sep) == join(others.drop_last(), sep) + sep + others.last());
        assert(join(parts, sep) == parts[0] + sep + join(front.drop_first(), sep) + sep
            + parts.last());
    }
}

/// Parts that are joined and split again are the parts, where none of them
/// holds what the separator begins with.
pub proof fn lemma_split_join(parts: Seq<Seq<char>>, sep: Seq<char>)
    requires
        parts.len() >= 1,
        sep.len() > 0,
        forall|i: int| 0 <= i < parts.len() ==> free_of(#[trigger] parts[i], sep[0]),
    ensures
        split(join(parts, sep), sep) == parts,
    decreases parts.len(),
{
    let s = join(parts, sep);
    if parts.len() == 1 {
        assert(s == parts[0]);
        lemma_find_none(s, sep, 0);
        assert(s.subrange(0, s.len() as int) == s);
        assert(split(s, sep) == seq![s]);
        assert(seq![parts[0]] == parts);
    } else {
        let first = parts[0];
        let others = parts.drop_first();
        let tail = join(others, sep);
        lemma_join_front(parts, sep);
        assert(s == first + sep + tail);
        lemma_find_separator(first, sep, tail);
        assert(s.subrange(0, first.len() as int) == first);
        assert forall|i: int| 0 <= i < others.len() implies free_of(#[trigger] others[i], sep[0]) by {
            assert(others[i] == parts[i + 1]);
        }
        lemma_split_join(others, sep);
        let head = first + sep;
        assert(s == head + tail);
        lemma_split_from_shift(head, tail, sep, 0);
        assert(split_from(s, sep, (first.len() + sep.len()) as int) == others);
        assert(split(s, sep) == seq![first] + others);
        assert(seq![first] + others == parts);
    }
}

} // verus!
