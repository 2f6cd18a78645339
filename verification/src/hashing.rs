//! Block hashing: the SHA-256 digest of a preimage string, rendered as
//! uppercase hexadecimal text, and the difficulty predicate that mined
//! hashes must satisfy (at least six `'1'` characters in the hex text).

use vstd::prelude::*;
use vstd::string::StringExecFns;
use vstd::string::StrSliceExecFns;
use vstd::utf8::encode_utf8;
use sha2::{Digest, Sha256};

verus! {

/// The SHA-256 digest of a byte string. The digest itself is computed by
/// an outside library; this name stands for its result, which depends on
/// the input bytes alone.
pub uninterp spec fn sha256_of(data: Seq<u8>) -> Seq<u8>;

/// Relies on `sha2::Sha256` through the `Digest` trait (`new`, `update`,
/// `finalize`): the digest is a function of the input bytes alone, and
/// SHA-256 digests are 32 bytes long.
#[verifier::external_body]
fn sha256_bytes(data: &[u8]) -> (r: Vec<u8>)
    ensures
        r@ == sha256_of(data@),
        r@.len() == 32,
{
    let mut hasher = Sha256::new();
    hasher.update(data);
    hasher.finalize().to_vec()
}

/// The character for one hexadecimal digit, uppercase.
pub open spec fn hex_digit(d: int) -> char {
    if d < 10 {
        crate::digits::digit_char(d)
    } else if d == 10 {
        'A'
    } else if d == 11 {
        'B'
    } else if d == 12 {
        'C'
    } else if d == 13 {
        'D'
    } else if d == 14 {
        'E'
    } else {
        'F'
    }
}

/// A byte string rendered as uppercase hexadecimal text, two digits per
/// byte, zero-padded.
pub open spec fn hex_upper(bs: Seq<u8>) -> Seq<char>
    decreases bs.len(),
{
    if bs.len() == 0 {
        Seq::empty()
    } else {
        hex_upper(bs.drop_last()) + seq![
            hex_digit(bs.last() as int / 16),
            hex_digit(bs.last() as int % 16),
        ]
    }
}

/// The hash text of a preimage string: its UTF-8 bytes digested by
/// SHA-256 and rendered as uppercase hex.
pub open spec fn hash_text_of(data: Seq<char>) -> Seq<char> {
    hex_upper(sha256_of(encode_utf8(data)))
}

/// How many times `c` occurs in `s`.
pub open spec fn count_char(s: Seq<char>, c: char) -> nat
    decreases s.len(),
{
    if s.len() == 0 {
        0
    } else {
        count_char(s.drop_last(), c) + if s.last() == c {
            1nat
        } else {
            0nat
        }
    }
}

/// The difficulty predicate: a hash text is acceptable once it contains
/// at least six occurrences of the character `'1'`.
pub open spec fn meets_difficulty(h: Seq<char>) -> bool {
    count_char(h, '1') >= 6
}

/// One uppercase hex digit as a string slice.
fn hex_digit_str(d: u8) -> (r: &'static str)
    requires
        d < 16,
    ensures
        r@ == seq![hex_digit(d as int)],
{
    let r: &'static str = if d < 10 {
        crate::digits::digit_str(d)
    } else if d == 10 {
        "A"
    } else if d == 11 {
        "B"
    } else if d == 12 {
        "C"
    } else if d == 13 {
        "D"
    } else if d == 14 {
        "E"
    } else {
        "F"
    };
    proof {
        reveal_strlit("A");
        reveal_strlit("B");
        reveal_strlit("C");
        reveal_strlit("D");
        reveal_strlit("E");
        reveal_strlit("F");
        assert(r@ =~= seq![hex_digit(d as int)]);
    }
    r
}

/// Renders a byte string as uppercase hexadecimal text.
pub fn bytes_to_upper_hex(bs: &Vec<u8>) -> (s: String)
    ensures
        s@ == hex_upper(bs@),
{
    let mut s = String::new();
    let mut i: usize = 0;
    while i < bs.len()
        invariant
            i <= bs@.len(),
            s@ == hex_upper(bs@.take(i as int)),
        decreases bs@.len() - i,
    {
        let b = bs[i];
        s.append(hex_digit_str(b / 16));
        s.append(hex_digit_str(b % 16));
        proof {
            assert(bs@.take(i + 1 as int).drop_last() =~= bs@.take(i as int));
            assert(bs@.take(i + 1 as int).last() == bs@[i as int]);
            assert(s@ =~= hex_upper(bs@.take(i + 1 as int)));
        }
        i = i + 1;
    }
    proof {
        assert(bs@.take(bs@.len() as int) =~= bs@);
    }
    s
}

/// The hash text of a preimage: SHA-256, then uppercase hex.
pub fn hash_string(data: &str) -> (r: String)
    ensures
        r@ == hash_text_of(data@),
{
    let digest = sha256_bytes(data.as_bytes());
    bytes_to_upper_hex(&digest)
}

/// Counts the occurrences of `c` in `s`.
pub fn count_char_occurrences(s: &str, c: char) -> (n: usize)
    ensures
        n == count_char(s@, c),
{
    let len = s.unicode_len();
    let mut n: usize = 0;
    let mut i: usize = 0;
    while i < len
        invariant
            len == s@.len(),
            i <= len,
            n <= i,
            n == count_char(s@.take(i as int), c),
        decreases len - i,
    {
        proof {
            assert(s@.take(i + 1 as int).drop_last() =~= s@.take(i as int));
            assert(s@.take(i + 1 as int).last() == s@[i as int]);
        }
        if s.get_char(i) == c {
            n = n + 1;
        }
        i = i + 1;
    }
    proof {
        assert(s@.take(len as int) =~= s@);
    }
    n
}

/// Decides the difficulty predicate on a hash text.
pub fn satisfies_difficulty(h: &str) -> (b: bool)
    ensures
        b == meets_difficulty(h@),
{
    count_char_occurrences(h, '1') >= 6
}

} // verus!
