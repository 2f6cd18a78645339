//! The snapshot codec: a chain serialized to one binary blob and read
//! back. Integers travel as little-endian bytes, text as a length
//! followed by one 32-bit scalar per character, blocks and chains as
//! the concatenation of their parts. Decoding an encoded chain yields
//! the chain again, proved below; persistence itself — writing the
//! blob to disk and reading it back — is the caller's business.

use vstd::prelude::*;
use vstd::bytes::{
    spec_u32_to_le_bytes,
    spec_u32_from_le_bytes,
    spec_u64_to_le_bytes,
    spec_u64_from_le_bytes,
    lemma_auto_spec_u32_to_from_le_bytes,
    lemma_auto_spec_u64_to_from_le_bytes,
    u32_to_le_bytes,
    u32_from_le_bytes,
    u64_to_le_bytes,
    u64_from_le_bytes,
};
use vstd::slice::slice_subrange;
use vstd::string::StrSliceExecFns;
use vstd::utf8::{char_is_scalar, char_u32_cast};
use crate::LedgerError;
use crate::ledger::{Block, BlockV, Header, Transaction, TransactionV};

verus! {

/// A value `char::from_u32` accepts: any Unicode scalar value, that
/// is, anything up to 0x10FFFF that is not a surrogate code point.
pub open spec fn is_unicode_scalar(v: u32) -> bool {
    v < 0xD800 || (0xE000 <= v && v <= 0x10FFFF)
}

/// Relies on `char::from_u32`: it returns the character with the given
/// scalar value, and `None` exactly when the value is a surrogate code
/// point or above 0x10FFFF.
pub assume_specification[ char::from_u32 ](v: u32) -> (r: Option<char>)
    ensures
        r is Some <==> is_unicode_scalar(v),
        r matches Some(c) ==> c as u32 == v,
;

/// Relies on `String::push`: it appends the one character to the end
/// of the string.
pub assume_specification[ String::push ](s: &mut String, c: char)
    ensures
        final(s)@ == old(s)@.push(c),
;

/// A `u64` as eight little-endian bytes.
pub open spec fn enc_u64(x: u64) -> Seq<u8> {
    spec_u64_to_le_bytes(x)
}

/// Characters as consecutive 32-bit scalars, each in four
/// little-endian bytes.
pub open spec fn enc_chars(s: Seq<char>) -> Seq<u8>
    decreases s.len(),
{
    if s.len() == 0 {
        Seq::<u8>::empty()
    } else {
        spec_u32_to_le_bytes(s[0] as u32) + enc_chars(s.drop_first())
    }
}

/// A string as its character count followed by its characters.
pub open spec fn enc_str(s: Seq<char>) -> Seq<u8> {
    enc_u64(s.len() as u64) + enc_chars(s)
}

/// A block as the concatenation of its parts: timestamp, nonce, parent
/// hash, transaction fields, own hash.
pub open spec fn enc_block(b: BlockV) -> Seq<u8> {
    enc_u64(b.timestamp as u64) + enc_u64(b.nonce) + enc_str(b.prev_hash) + enc_str(
        b.transaction.from,
    ) + enc_str(b.transaction.to) + enc_u64(b.transaction.amount) + enc_str(b.hash)
}

/// Blocks back to back.
pub open spec fn enc_blocks(c: Seq<BlockV>) -> Seq<u8>
    decreases c.len(),
{
    if c.len() == 0 {
        Seq::<u8>::empty()
    } else {
        enc_block(c[0]) + enc_blocks(c.drop_first())
    }
}

/// A chain as its block count followed by its blocks.
pub open spec fn enc_chain(c: Seq<BlockV>) -> Seq<u8> {
    enc_u64(c.len() as u64) + enc_blocks(c)
}

/// Reads a `u64`, returning it and the remaining bytes.
pub open spec fn dec_u64(b: Seq<u8>) -> Option<(u64, Seq<u8>)> {
    if b.len() >= 8 {
        Some((spec_u64_from_le_bytes(b.take(8)), b.skip(8)))
    } else {
        None
    }
}

/// Reads one character from four little-endian bytes, refusing values
/// that are not Unicode scalars.
pub open spec fn dec_char(b: Seq<u8>) -> Option<(char, Seq<u8>)> {
    if b.len() >= 4 {
        let v = spec_u32_from_le_bytes(b.take(4));
        if is_unicode_scalar(v) {
            Some((v as char, b.skip(4)))
        } else {
            None
        }
    } else {
        None
    }
}

/// Reads exactly `n` characters.
pub open spec fn dec_chars(b: Seq<u8>, n: nat) -> Option<(Seq<char>, Seq<u8>)>
    decreases n,
{
    if n == 0 {
        Some((Seq::<char>::empty(), b))
    } else {
        match dec_char(b) {
            Some(p) => match dec_chars(p.1, (n - 1) as nat) {
                Some(q) => Some((seq![p.0] + q.0, q.1)),
                None => None,
            },
            None => None,
        }
    }
}

/// Reads a length-prefixed string.
pub open spec fn dec_str(b: Seq<u8>) -> Option<(Seq<char>, Seq<u8>)> {
    match dec_u64(b) {
        Some(p) => dec_chars(p.1, p.0 as nat),
        None => None,
    }
}

/// Reads one block.
pub open spec fn dec_block(b: Seq<u8>) -> Option<(BlockV, Seq<u8>)> {
    match dec_u64(b) {
        Some(ts) => match dec_u64(ts.1) {
            Some(nn) => match dec_str(nn.1) {
                Some(ph) => match dec_str(ph.1) {
                    Some(fr) => match dec_str(fr.1) {
                        Some(to) => match dec_u64(to.1) {
                            Some(am) => match dec_str(am.1) {
                                Some(hh) => Some(
                                    (
                                        BlockV {
                                            timestamp: ts.0 as i64,
                                            nonce: nn.0,
                                            prev_hash: ph.0,
                                            transaction: TransactionV {
                                                from: fr.0,
                                                to: to.0,
                                                amount: am.0,
                                            },
                                            hash: hh.0,
                                        },
                                        hh.1,
                                    ),
                                ),
                                None => None,
                            },
                            None => None,
                        },
                        None => None,
                    },
                    None => None,
                },
                None => None,
            },
            None => None,
        },
        None => None,
    }
}

/// Reads exactly `n` blocks.
pub open spec fn dec_blocks(b: Seq<u8>, n: nat) -> Option<(Seq<BlockV>, Seq<u8>)>
    decreases n,
{
    if n == 0 {
        Some((Seq::<BlockV>::empty(), b))
    } else {
        match dec_block(b) {
            Some(p) => match dec_blocks(p.1, (n - 1) as nat) {
                Some(q) => Some((seq![p.0] + q.0, q.1)),
                None => None,
            },
            None => None,
        }
    }
}

/// Reads a whole chain; every byte must be consumed.
pub open spec fn dec_chain(b: Seq<u8>) -> Option<Seq<BlockV>> {
    match dec_u64(b) {
        Some(p) => match dec_blocks(p.1, p.0 as nat) {
            Some(q) => if q.1.len() == 0 {
                Some(q.0)
            } else {
                None
            },
            None => None,
        },
        None => None,
    }
}

/// A block whose four strings each fit a 64-bit length prefix — true
/// of any block held in memory.
pub open spec fn block_bounded(b: BlockV) -> bool {
    &&& b.prev_hash.len() <= u64::MAX
    &&& b.transaction.from.len() <= u64::MAX
    &&& b.transaction.to.len() <= u64::MAX
    &&& b.hash.len() <= u64::MAX
}

proof fn lemma_dec_enc_u64(x: u64, rest: Seq<u8>)
    ensures
        dec_u64(enc_u64(x) + rest) == Some((x, rest)),
{
    lemma_auto_spec_u64_to_from_le_bytes();
    assert((enc_u64(x) + rest).take(8) =~= enc_u64(x));
    assert((enc_u64(x) + rest).skip(8) =~= rest);
}

proof fn lemma_dec_enc_char(c: char, rest: Seq<u8>)
    ensures
        dec_char(spec_u32_to_le_bytes(c as u32) + rest) == Some((c, rest)),
{
    lemma_auto_spec_u32_to_from_le_bytes();
    char_is_scalar(c);
    assert((spec_u32_to_le_bytes(c as u32) + rest).take(4) =~= spec_u32_to_le_bytes(c as u32));
    assert((spec_u32_to_le_bytes(c as u32) + rest).skip(4) =~= rest);
    char_u32_cast(c, c as u32);
}

proof fn lemma_dec_enc_chars(s: Seq<char>, rest: Seq<u8>)
    ensures
        dec_chars(enc_chars(s) + rest, s.len()) == Some((s, rest)),
    decreases s.len(),
{
    if s.len() == 0 {
        assert(enc_chars(s) + rest =~= rest);
    } else {
        assert(enc_chars(s) + rest =~= spec_u32_to_le_bytes(s[0] as u32) + (enc_chars(
            s.drop_first(),
        ) + rest));
        lemma_dec_enc_char(s[0], enc_chars(s.drop_first()) + rest);
        lemma_dec_enc_chars(s.drop_first(), rest);
        assert(seq![s[0]] + s.drop_first() =~= s);
    }
}

proof fn lemma_dec_enc_str(s: Seq<char>, rest: Seq<u8>)
    requires
        s.len() <= u64::MAX,
    ensures
        dec_str(enc_str(s) + rest) == Some((s, rest)),
{
    assert(enc_str(s) + rest =~= enc_u64(s.len() as u64) + (enc_chars(s) + rest));
    lemma_dec_enc_u64(s.len() as u64, enc_chars(s) + rest);
    assert((s.len() as u64) as nat == s.len());
    lemma_dec_enc_chars(s, rest);
}

proof fn lemma_dec_enc_block(b: BlockV, rest: Seq<u8>)
    requires
        block_bounded(b),
    ensures
        dec_block(enc_block(b) + rest) == Some((b, rest)),
{
    let r6 = enc_str(b.hash) + rest;
    let r5 = enc_u64(b.transaction.amount) + r6;
    let r4 = enc_str(b.transaction.to) + r5;
    let r3 = enc_str(b.transaction.from) + r4;
    let r2 = enc_str(b.prev_hash) + r3;
    let r1 = enc_u64(b.nonce) + r2;
    assert(enc_block(b) + rest =~= enc_u64(b.timestamp as u64) + r1);
    assert(r1 =~= enc_u64(b.nonce) + r2);
    lemma_dec_enc_u64(b.timestamp as u64, r1);
    lemma_dec_enc_u64(b.nonce, r2);
    lemma_dec_enc_str(b.prev_hash, r3);
    lemma_dec_enc_str(b.transaction.from, r4);
    lemma_dec_enc_str(b.transaction.to, r5);
    lemma_dec_enc_u64(b.transaction.amount, r6);
    lemma_dec_enc_str(b.hash, rest);
    let ts = b.timestamp;
    assert((ts as u64) as i64 == ts) by (bit_vector);
}

proof fn lemma_dec_enc_blocks(c: Seq<BlockV>, rest: Seq<u8>)
    requires
        forall|i: int| 0 <= i < c.len() ==> block_bounded(#[trigger] c[i]),
    ensures
        dec_blocks(enc_blocks(c) + rest, c.len()) == Some((c, rest)),
    decreases c.len(),
{
    if c.len() == 0 {
        assert(enc_blocks(c) + rest =~= rest);
    } else {
        assert(enc_blocks(c) + rest =~= enc_block(c[0]) + (enc_blocks(c.drop_first()) + rest));
        lemma_dec_enc_block(c[0], enc_blocks(c.drop_first()) + rest);
        assert(forall|i: int|
            0 <= i < c.drop_first().len() ==> block_bounded(#[trigger] c.drop_first()[i]));
        lemma_dec_enc_blocks(c.drop_first(), rest);
        assert(seq![c[0]] + c.drop_first() =~= c);
    }
}

/// Round-trip law: decoding an encoded chain yields exactly that
/// chain, for every chain whose sizes fit their 64-bit length
/// prefixes.
pub proof fn lemma_chain_round_trip(c: Seq<BlockV>)
    requires
        c.len() <= u64::MAX,
        forall|i: int| 0 <= i < c.len() ==> block_bounded(#[trigger] c[i]),
    ensures
        dec_chain(enc_chain(c)) == Some(c),
{
    lemma_dec_enc_u64(c.len() as u64, enc_blocks(c));
    assert((c.len() as u64) as nat == c.len());
    lemma_dec_enc_blocks(c, Seq::<u8>::empty());
    assert(enc_blocks(c) + Seq::<u8>::empty() =~= enc_blocks(c));
}

fn push_u64(out: &mut Vec<u8>, x: u64)
    ensures
        final(out)@ == old(out)@ + enc_u64(x),
{
    let mut bs = u64_to_le_bytes(x);
    out.append(&mut bs);
}

proof fn lemma_enc_chars_snoc(s: Seq<char>, i: int)
    requires
        0 <= i < s.len(),
    ensures
        enc_chars(s.take(i + 1)) == enc_chars(s.take(i)) + spec_u32_to_le_bytes(s[i] as u32),
    decreases i,
{
    if i == 0 {
        assert(s.take(1).drop_first() =~= Seq::<char>::empty());
        assert(s.take(1)[0] == s[0]);
        assert(enc_chars(s.take(1)) == spec_u32_to_le_bytes(s[0] as u32) + enc_chars(
            Seq::<char>::empty(),
        ));
        assert(spec_u32_to_le_bytes(s[0] as u32) + Seq::<u8>::empty() =~= spec_u32_to_le_bytes(
            s[0] as u32,
        ));
        assert(s.take(0) =~= Seq::<char>::empty());
        assert(enc_chars(s.take(0)) + spec_u32_to_le_bytes(s[0] as u32) =~= spec_u32_to_le_bytes(
            s[0] as u32,
        ));
    } else {
        lemma_enc_chars_snoc(s.drop_first(), i - 1);
        assert(s.take(i + 1).drop_first() =~= s.drop_first().take(i));
        assert(s.take(i).drop_first() =~= s.drop_first().take(i - 1));
        assert(s.drop_first()[i - 1] == s[i]);
        assert(enc_chars(s.take(i + 1)) =~= spec_u32_to_le_bytes(s[0] as u32) + enc_chars(
            s.drop_first().take(i),
        ));
        assert(enc_chars(s.take(i)) =~= spec_u32_to_le_bytes(s[0] as u32) + enc_chars(
            s.drop_first().take(i - 1),
        ));
        assert(enc_chars(s.take(i)) + spec_u32_to_le_bytes(s[i] as u32) =~= spec_u32_to_le_bytes(
            s[0] as u32,
        ) + (enc_chars(s.drop_first().take(i - 1)) + spec_u32_to_le_bytes(
            s.drop_first()[i - 1] as u32,
        )));
    }
}

fn push_str(out: &mut Vec<u8>, s: &str)
    ensures
        final(out)@ == old(out)@ + enc_str(s@),
{
    let len = s.unicode_len();
    push_u64(out, len as u64);
    let mut i: usize = 0;
    while i < len
        invariant
            len == s@.len(),
            i <= len,
            out@ == old(out)@ + enc_u64(s@.len() as u64) + enc_chars(s@.take(i as int)),
        decreases len - i,
    {
        let c = s.get_char(i);
        let mut bs = u32_to_le_bytes(c as u32);
        out.append(&mut bs);
        proof {
            lemma_enc_chars_snoc(s@, i as int);
        }
        i = i + 1;
    }
    proof {
        assert(s@.take(len as int) =~= s@);
        assert(old(out)@ + enc_u64(s@.len() as u64) + enc_chars(s@) =~= old(out)@ + enc_str(s@));
    }
}

fn push_block(out: &mut Vec<u8>, b: &Block)
    ensures
        final(out)@ == old(out)@ + enc_block(b@),
{
    push_u64(
        out,
        #[verifier::truncate]
        (b.header.timestamp as u64),
    );
    push_u64(out, b.header.nonce);
    push_str(out, b.prev_hash.as_str());
    push_str(out, b.transaction.from.as_str());
    push_str(out, b.transaction.to.as_str());
    push_u64(out, b.transaction.amount);
    push_str(out, b.hash.as_str());
    proof {
        assert(out@ =~= old(out)@ + enc_block(b@));
    }
}

proof fn lemma_enc_blocks_snoc(c: Seq<BlockV>, i: int)
    requires
        0 <= i < c.len(),
    ensures
        enc_blocks(c.take(i + 1)) == enc_blocks(c.take(i)) + enc_block(c[i]),
    decreases i,
{
    if i == 0 {
        assert(c.take(1).drop_first() =~= Seq::<BlockV>::empty());
        assert(c.take(1)[0] == c[0]);
        assert(enc_blocks(c.take(1)) == enc_block(c[0]) + enc_blocks(Seq::<BlockV>::empty()));
        assert(enc_block(c[0]) + Seq::<u8>::empty() =~= enc_block(c[0]));
        assert(c.take(0) =~= Seq::<BlockV>::empty());
        assert(enc_blocks(c.take(0)) + enc_block(c[0]) =~= enc_block(c[0]));
    } else {
        lemma_enc_blocks_snoc(c.drop_first(), i - 1);
        assert(c.take(i + 1).drop_first() =~= c.drop_first().take(i));
        assert(c.take(i).drop_first() =~= c.drop_first().take(i - 1));
        assert(c.drop_first()[i - 1] == c[i]);
        assert(enc_blocks(c.take(i + 1)) =~= enc_block(c[0]) + enc_blocks(c.drop_first().take(i)));
        assert(enc_blocks(c.take(i)) =~= enc_block(c[0]) + enc_blocks(c.drop_first().take(i - 1)));
        assert(enc_blocks(c.take(i)) + enc_block(c[i]) =~= enc_block(c[0]) + (enc_blocks(
            c.drop_first().take(i - 1),
        ) + enc_block(c.drop_first()[i - 1])));
    }
}

/// Serializes a chain into one binary blob.
pub fn encode_chain(chain: &Vec<Block>) -> (r: Vec<u8>)
    ensures
        r@ == enc_chain(chain.deep_view()),
{
    let ghost cv = chain.deep_view();
    let mut out: Vec<u8> = Vec::new();
    push_u64(&mut out, chain.len() as u64);
    proof {
        assert(out@ =~= enc_u64(cv.len() as u64));
    }
    let mut i: usize = 0;
    while i < chain.len()
        invariant
            cv == chain.deep_view(),
            i <= cv.len(),
            out@ == enc_u64(cv.len() as u64) + enc_blocks(cv.take(i as int)),
        decreases cv.len() - i,
    {
        push_block(&mut out, &chain[i]);
        proof {
            assert(chain@[i as int]@ == cv[i as int]);
            lemma_enc_blocks_snoc(cv, i as int);
            assert(out@ =~= enc_u64(cv.len() as u64) + enc_blocks(cv.take(i + 1 as int)));
        }
        i = i + 1;
    }
    proof {
        assert(cv.take(cv.len() as int) =~= cv);
    }
    out
}

fn read_u64(b: &Vec<u8>, pos: usize) -> (r: Option<(u64, usize)>)
    requires
        pos <= b@.len(),
    ensures
        match r {
            Some(p) => {
                &&& dec_u64(b@.skip(pos as int)) == Some((p.0, b@.skip(p.1 as int)))
                &&& pos < p.1 <= b@.len()
            },
            None => dec_u64(b@.skip(pos as int)) is None,
        },
{
    if b.len() - pos >= 8 {
        let x = u64_from_le_bytes(slice_subrange(b.as_slice(), pos, pos + 8));
        proof {
            assert(b@.subrange(pos as int, pos + 8 as int) =~= b@.skip(pos as int).take(8));
            assert(b@.skip(pos + 8 as int) =~= b@.skip(pos as int).skip(8));
        }
        Some((x, pos + 8))
    } else {
        None
    }
}

fn read_char(b: &Vec<u8>, pos: usize) -> (r: Option<(char, usize)>)
    requires
        pos <= b@.len(),
    ensures
        match r {
            Some(p) => {
                &&& dec_char(b@.skip(pos as int)) == Some((p.0, b@.skip(p.1 as int)))
                &&& pos < p.1 <= b@.len()
            },
            None => dec_char(b@.skip(pos as int)) is None,
        },
{
    if b.len() - pos >= 4 {
        let v = u32_from_le_bytes(slice_subrange(b.as_slice(), pos, pos + 4));
        proof {
            assert(b@.subrange(pos as int, pos + 4 as int) =~= b@.skip(pos as int).take(4));
            assert(b@.skip(pos + 4 as int) =~= b@.skip(pos as int).skip(4));
        }
        match char::from_u32(v) {
            Some(c) => {
                proof {
                    char_u32_cast(c, v);
                }
                Some((c, pos + 4))
            },
            None => None,
        }
    } else {
        None
    }
}

#[verifier::loop_isolation(false)]
fn read_str(b: &Vec<u8>, pos: usize) -> (r: Option<(String, usize)>)
    requires
        pos <= b@.len(),
    ensures
        match r {
            Some(p) => {
                &&& dec_str(b@.skip(pos as int)) == Some((p.0@, b@.skip(p.1 as int)))
                &&& pos <= p.1 <= b@.len()
            },
            None => dec_str(b@.skip(pos as int)) is None,
        },
{
    match read_u64(b, pos) {
        None => None,
        Some((n, p1)) => {
            let mut s = String::new();
            let mut i: u64 = 0;
            let mut pos2 = p1;
            while i < n
                invariant
                    i <= n,
                    p1 <= pos2 <= b@.len(),
                    match dec_chars(b@.skip(pos2 as int), (n - i) as nat) {
                        Some(q) => dec_chars(b@.skip(p1 as int), n as nat) == Some(
                            (s@ + q.0, q.1),
                        ),
                        None => dec_chars(b@.skip(p1 as int), n as nat) is None,
                    },
                decreases n - i,
            {
                match read_char(b, pos2) {
                    Some((c, p2)) => {
                        let ghost s0 = s@;
                        s.push(c);
                        proof {
                            let tail = b@.skip(p2 as int);
                            match dec_chars(tail, (n - i - 1) as nat) {
                                Some(q) => {
                                    assert(dec_chars(b@.skip(pos2 as int), (n - i) as nat)
                                        == Some((seq![c] + q.0, q.1)));
                                    assert(s0 + (seq![c] + q.0) =~= s@ + q.0);
                                },
                                None => {
                                    assert(dec_chars(b@.skip(pos2 as int), (n - i) as nat)
                                        is None);
                                },
                            }
                        }
                        pos2 = p2;
                        i = i + 1;
                    },
                    None => {
                        proof {
                            assert(dec_chars(b@.skip(pos2 as int), (n - i) as nat) is None);
                        }
                        return None;
                    },
                }
            }
            proof {
                assert(dec_chars(b@.skip(pos2 as int), 0) == Some(
                    (Seq::<char>::empty(), b@.skip(pos2 as int)),
                ));
                assert(s@ + Seq::<char>::empty() =~= s@);
            }
            Some((s, pos2))
        },
    }
}

fn read_block(b: &Vec<u8>, pos: usize) -> (r: Option<(Block, usize)>)
    requires
        pos <= b@.len(),
    ensures
        match r {
            Some(p) => {
                &&& dec_block(b@.skip(pos as int)) == Some((p.0@, b@.skip(p.1 as int)))
                &&& pos <= p.1 <= b@.len()
            },
            None => dec_block(b@.skip(pos as int)) is None,
        },
{
    let (ts, p1) = match read_u64(b, pos) {
        Some(p) => p,
        None => {
            return None;
        },
    };
    let (nonce, p2) = match read_u64(b, p1) {
        Some(p) => p,
        None => {
            return None;
        },
    };
    let (prev_hash, p3) = match read_str(b, p2) {
        Some(p) => p,
        None => {
            return None;
        },
    };
    let (from, p4) = match read_str(b, p3) {
        Some(p) => p,
        None => {
            return None;
        },
    };
    let (to, p5) = match read_str(b, p4) {
        Some(p) => p,
        None => {
            return None;
        },
    };
    let (amount, p6) = match read_u64(b, p5) {
        Some(p) => p,
        None => {
            return None;
        },
    };
    let (hash, p7) = match read_str(b, p6) {
        Some(p) => p,
        None => {
            return None;
        },
    };
    let blk = Block {
        header: Header {
            timestamp: (
            #[verifier::truncate]
            (ts as i64)),
            nonce,
        },
        prev_hash,
        transaction: Transaction { from, to, amount },
        hash,
    };
    Some((blk, p7))
}

/// Deserializes a chain from one binary blob; any malformed or
/// unconsumed bytes make the snapshot corrupt.
#[verifier::loop_isolation(false)]
pub fn decode_chain(bytes: &Vec<u8>) -> (r: Result<Vec<Block>, LedgerError>)
    ensures
        match r {
            Ok(c) => dec_chain(bytes@) == Some(c.deep_view()),
            Err(e) => e == LedgerError::CorruptSnapshot && dec_chain(bytes@) is None,
        },
{
    proof {
        assert(bytes@.skip(0) =~= bytes@);
    }
    match read_u64(bytes, 0) {
        None => Err(LedgerError::CorruptSnapshot),
        Some((n, p1)) => {
            let mut blocks: Vec<Block> = Vec::new();
            let mut i: u64 = 0;
            let mut pos = p1;
            while i < n
                invariant
                    i <= n,
                    p1 <= pos <= bytes@.len(),
                    match dec_blocks(bytes@.skip(pos as int), (n - i) as nat) {
                        Some(q) => dec_blocks(bytes@.skip(p1 as int), n as nat) == Some(
                            (blocks.deep_view() + q.0, q.1),
                        ),
                        None => dec_blocks(bytes@.skip(p1 as int), n as nat) is None,
                    },
                decreases n - i,
            {
                match read_block(bytes, pos) {
                    Some((blk, p2)) => {
                        let ghost b0 = blocks.deep_view();
                        let ghost bv = blk@;
                        blocks.push(blk);
                        proof {
                            assert(blocks.deep_view() =~= b0.push(bv));
                            let tail = bytes@.skip(p2 as int);
                            match dec_blocks(tail, (n - i - 1) as nat) {
                                Some(q) => {
                                    assert(dec_blocks(bytes@.skip(pos as int), (n - i) as nat)
                                        == Some((seq![bv] + q.0, q.1)));
                                    assert(b0 + (seq![bv] + q.0) =~= blocks.deep_view() + q.0);
                                },
                                None => {
                                    assert(dec_blocks(bytes@.skip(pos as int), (n - i) as nat)
                                        is None);
                                },
                            }
                        }
                        pos = p2;
                        i = i + 1;
                    },
                    None => {
                        proof {
                            assert(dec_blocks(bytes@.skip(pos as int), (n - i) as nat) is None);
                        }
                        return Err(LedgerError::CorruptSnapshot);
                    },
                }
            }
            proof {
                assert(dec_blocks(bytes@.skip(pos as int), 0) == Some(
                    (Seq::<BlockV>::empty(), bytes@.skip(pos as int)),
                ));
                assert(blocks.deep_view() + Seq::<BlockV>::empty() =~= blocks.deep_view());
            }
            if pos == bytes.len() {
                proof {
                    assert(bytes@.skip(pos as int).len() == 0);
                }
                Ok(blocks)
            } else {
                proof {
                    assert(bytes@.skip(pos as int).len() > 0);
                }
                Err(LedgerError::CorruptSnapshot)
            }
        },
    }
}

} // verus!
