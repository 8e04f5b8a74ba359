//! Chunked bodies: how they are written, and that reading one gives back what
//! was written.

use crate::server::protocol::{StatusCode, PAYLOAD_TOO_LARGE};
use crate::server::requests::{
    all_hex, chunk_size, decode_chunked, hex_digit, hex_value, is_space_byte, size_digits,
    space_rskip, space_skip, trim_bytes,
};
use crate::text::{find, lemma_find_from_is, matches_at};
use vstd::prelude::*;

verus! {

/// The hexadecimal digit of a number below sixteen.
pub open spec fn hex_char(d: nat) -> u8 {
    if d < 10 {
        (48 + d) as u8
    } else {
        (87 + d) as u8
    }
}

/// `n` in hexadecimal, without leading zeros.
pub open spec fn hex(n: nat) -> Seq<u8>
    decreases n,
{
    if n < 16 {
        seq![hex_char(n)]
    } else {
        hex(n / 16).push(hex_char(n % 16))
    }
}

/// A chunk as it is written: its length in hexadecimal, a line break, its
/// bytes, a line break.
pub open spec fn encode_chunk(chunk: Seq<u8>) -> Seq<u8> {
    hex(chunk.len()) + seq![13u8, 10u8] + chunk + seq![13u8, 10u8]
}

/// What ends a chunked body: a chunk of length zero.
pub open spec fn last_chunk() -> Seq<u8> {
    seq![48u8, 13u8, 10u8, 13u8, 10u8]
}

/// A body as it is written in chunks.
pub open spec fn encode_chunked(chunks: Seq<Seq<u8>>) -> Seq<u8>
    decreases chunks.len(),
{
    if chunks.len() == 0 {
        last_chunk()
    } else {
        encode_chunk(chunks[0]) + encode_chunked(chunks.drop_first())
    }
}

/// The body that the chunks carry.
pub open spec fn joined(chunks: Seq<Seq<u8>>) -> Seq<u8>
    decreases chunks.len(),
{
    if chunks.len() == 0 {
        Seq::empty()
    } else {
        chunks[0] + joined(chunks.drop_first())
    }
}

/// Chunks that can be written: none is empty, and each has a length that a
/// `usize` holds.
pub open spec fn writable(chunks: Seq<Seq<u8>>) -> bool {
    forall|i: int| 0 <= i < chunks.len() ==> 0 < (#[trigger] chunks[i]).len() <= usize::MAX
}

/// A number in hexadecimal is made of hexadecimal digits and writes that
/// number.
pub proof fn lemma_hex(n: nat)
    ensures
        hex(n).len() > 0,
        all_hex(hex(n)),
        hex_value(hex(n)) == n,
        forall|i: int|
            0 <= i < hex(n).len() ==> !is_space_byte(#[trigger] hex(n)[i]) && hex(n)[i] != 43,
    decreases n,
{
    if n < 16 {
        let s = hex(n);
        assert(s.drop_last() == Seq::<u8>::empty());
        assert(hex_value(s.drop_last()) == 0);
        assert(hex_digit(hex_char(n)) == Some(n));
    } else {
        lemma_hex(n / 16);
        let s = hex(n);
        let front = hex(n / 16);
        let d = n % 16;
        assert(s.drop_last() == front);
        assert(s.last() == hex_char(d));
        assert(hex_digit(hex_char(d)) == Some(d));
        assert forall|i: int| 0 <= i < s.len() implies hex_digit(#[trigger] s[i]) is Some by {
            if i < front.len() {
                assert(s[i] == front[i]);
            }
        }
        assert forall|i: int| 0 <= i < s.len() implies !is_space_byte(#[trigger] s[i]) && s[i]
            != 43 by {
            if i < front.len() {
                assert(s[i] == front[i]);
            }
        }
    }
}

/// The size that a number in hexadecimal gives is that number.
pub proof fn lemma_chunk_size_of_hex(n: nat)
    requires
        n <= usize::MAX,
    ensures
        chunk_size(hex(n)) == Some(n),
{
    lemma_hex(n);
    let s = hex(n);
    assert(!is_space_byte(s[0]));
    assert(space_skip(s, 0) == 0);
    assert(!is_space_byte(s[s.len() - 1]));
    assert(space_rskip(s, 0, s.len() as int) == s.len());
    assert(trim_bytes(s) == s);
    assert(s[0] != 43);
    assert(size_digits(s) == s);
}

/// The first line break of digits that a line break follows stands right
/// after the digits.
pub proof fn lemma_find_after_hex(n: nat, rest: Seq<u8>)
    ensures
        find(hex(n) + seq![13u8, 10u8] + rest, seq![13u8, 10u8]) == Some(hex(n).len() as int),
{
    lemma_hex(n);
    let digits = hex(n);
    let pat = seq![13u8, 10u8];
    let data = digits + pat + rest;
    let at = digits.len() as int;
    assert(data.subrange(at, at + 2) == pat);
    assert forall|j: int| 0 <= j < at implies !matches_at(data, pat, j) by {
        if matches_at(data, pat, j) {
            assert(data.subrange(j, j + 2)[0] == pat[0]);
            assert(data[j] == digits[j]);
            assert(hex_digit(digits[j]) is Some);
        }
    }
    lemma_find_from_is(data, pat, 0, at);
}

/// Reading what was written in chunks gives the body back, appended to what
/// was read before, where the whole fits the limit; where it does not, the
/// body is too large.
pub proof fn lemma_decode_encoded(chunks: Seq<Seq<u8>>, limit: nat, acc: Seq<u8>)
    requires
        writable(chunks),
        acc.len() <= limit,
    ensures
        decode_chunked(encode_chunked(chunks), limit, acc) == if acc.len() + joined(chunks).len()
            <= limit {
            Ok::<Seq<u8>, StatusCode>(acc + joined(chunks))
        } else {
            Err::<Seq<u8>, StatusCode>(StatusCode { code: PAYLOAD_TOO_LARGE })
        },
    decreases chunks.len(),
{
    let pat = seq![13u8, 10u8];
    if chunks.len() == 0 {
        let data = last_chunk();
        assert(hex(0) == seq![48u8]);
        assert(data == hex(0) + pat + pat);
        lemma_find_after_hex(0, pat);
        lemma_chunk_size_of_hex(0);
        assert(data.take(1) == hex(0));
        assert(acc + joined(chunks) == acc);
    } else {
        let chunk = chunks[0];
        let others = chunks.drop_first();
        let n = chunk.len();
        let tail = encode_chunked(others);
        let data = encode_chunked(chunks);
        let after = chunk + pat + tail;
        assert(data == hex(n) + pat + after);
        lemma_find_after_hex(n, after);
        lemma_chunk_size_of_hex(n);
        lemma_hex(n);
        let at = hex(n).len() as int;
        assert(data.take(at) == hex(n));
        assert(data.skip(at + 2) == after);
        assert(after.len() >= n + 2);
        assert(after.take(n as int) == chunk);
        assert(after.skip(n as int + 2) == tail);
        assert(joined(chunks) == chunk + joined(others));
        assert forall|i: int| 0 <= i < others.len() implies 0 < (#[trigger] others[i]).len()
            <= usize::MAX by {
            assert(others[i] == chunks[i + 1]);
        }
        if acc.len() + n <= limit {
            lemma_decode_encoded(others, limit, acc + chunk);
            assert(acc + chunk + joined(others) == acc + joined(chunks));
        }
    }
}

/// A body that is written in chunks and read again is the body, where it
/// fits the limit; a body above the limit is always too large.
pub proof fn lemma_chunked_round_trip(chunks: Seq<Seq<u8>>, limit: nat)
    requires
        writable(chunks),
    ensures
        joined(chunks).len() <= limit ==> decode_chunked(
            encode_chunked(chunks),
            limit,
            Seq::empty(),
        ) == Ok::<Seq<u8>, StatusCode>(joined(chunks)),
        joined(chunks).len() > limit ==> decode_chunked(
            encode_chunked(chunks),
            limit,
            Seq::empty(),
        ) == Err::<Seq<u8>, StatusCode>(StatusCode { code: PAYLOAD_TOO_LARGE }),
{
    lemma_decode_encoded(chunks, limit, Seq::empty());
    assert(Seq::<u8>::empty() + joined(chunks) == joined(chunks));
}

} // verus!
