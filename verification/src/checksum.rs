//! The per-tensor checksum the fixture stores next to every synthesized input: the bytes are
//! read as little-endian 32-bit words (the last one zero-padded), word `k` is weighted by the
//! odd number `2 (word_offset + k) + 1`, and everything is summed modulo 2^32.

use vstd::prelude::*;
use vstd::arithmetic::div_mod::lemma_add_mod_noop;

verus! {

pub open spec fn wrap_add32(x: u32, y: u32) -> u32 {
    ((x as nat + y as nat) % 0x1_0000_0000nat) as u32
}

pub open spec fn wrap_mul32(x: u32, y: u32) -> u32 {
    ((x as nat * y as nat) % 0x1_0000_0000nat) as u32
}

/// Byte `j` of `chunk`, or zero past its end.
pub open spec fn byte_or_zero(chunk: Seq<u8>, j: int) -> nat {
    if 0 <= j < chunk.len() {
        chunk[j] as nat
    } else {
        0
    }
}

/// The little-endian word of a chunk of at most four bytes, zero-padded.
pub open spec fn le_word(chunk: Seq<u8>) -> u32 {
    (byte_or_zero(chunk, 0) + 0x100 * byte_or_zero(chunk, 1) + 0x1_0000 * byte_or_zero(chunk, 2)
        + 0x100_0000 * byte_or_zero(chunk, 3)) as u32
}

/// The number of (possibly partial) four-byte blocks in `len` bytes.
pub open spec fn block_count(len: nat) -> nat {
    (len + 3) / 4
}

/// Block `k` of `bytes`: bytes `4k .. 4k + 4`, cut at the end.
pub open spec fn block(bytes: Seq<u8>, k: int) -> Seq<u8> {
    let end = if 4 * k + 4 <= bytes.len() {
        4 * k + 4
    } else {
        bytes.len() as int
    };
    bytes.subrange(4 * k, end)
}

/// The odd weight of word number `index` (counted modulo 2^32).
pub open spec fn block_weight(index: int) -> u32 {
    ((2 * (index % 0x1_0000_0000) + 1) % 0x1_0000_0000) as u32
}

/// The checksum contribution of the first `n` blocks, the first of them being word number
/// `offset`.
pub open spec fn checksum_blocks(bytes: Seq<u8>, offset: int, n: nat) -> u32
    decreases n,
{
    if n == 0 {
        0
    } else {
        wrap_add32(
            checksum_blocks(bytes, offset, (n - 1) as nat),
            wrap_mul32(le_word(block(bytes, n - 1)), block_weight(offset + n - 1)),
        )
    }
}

/// The checksum of `bytes` whose first word is word number `offset`.
pub open spec fn checksum_of(bytes: Seq<u8>, offset: int) -> u32 {
    checksum_blocks(bytes, offset, block_count(bytes.len()))
}

/// The little-endian word of block `k` of `bytes`.
fn block_word(bytes: &[u8], k: usize) -> (w: u32)
    requires
        4 * k < bytes@.len(),
    ensures
        w == le_word(block(bytes@, k as int)),
{
    let len = bytes.len();
    let start = k * 4;
    let b0: u32 = bytes[start] as u32;
    let b1: u32 = if start + 1 < len {
        bytes[start + 1] as u32
    } else {
        0
    };
    let b2: u32 = if start + 2 < len {
        bytes[start + 2] as u32
    } else {
        0
    };
    let b3: u32 = if start + 3 < len {
        bytes[start + 3] as u32
    } else {
        0
    };
    let ghost chunk = block(bytes@, k as int);
    assert(byte_or_zero(chunk, 0) == b0);
    assert(byte_or_zero(chunk, 1) == b1);
    assert(byte_or_zero(chunk, 2) == b2);
    assert(byte_or_zero(chunk, 3) == b3);
    b0 + b1 * 0x100 + b2 * 0x1_0000 + b3 * 0x100_0000
}

/// The weight of word number `index`.
fn word_weight(index: usize) -> (weight: u32)
    ensures
        weight == block_weight(index as int),
{
    let x = index as u64;
    let i = #[verifier::truncate] (x as u32);
    assert(i == x % 0x1_0000_0000) by (bit_vector)
        requires
            i == x as u32,
    ;
    i.wrapping_mul(2).wrapping_add(1)
}

/// The checksum of `bytes`, whose first four bytes are word number `word_offset`.
pub fn checksum(bytes: &[u8], word_offset: usize) -> (total: u32)
    requires
        bytes@.len() == 0 || word_offset + (bytes@.len() - 1) / 4 <= usize::MAX,
    ensures
        total == checksum_of(bytes@, word_offset as int),
{
    let len = bytes.len();
    let blocks: usize = len / 4 + if len % 4 != 0 {
        1
    } else {
        0
    };
    assert(blocks == block_count(len as nat));
    let mut total: u32 = 0;
    let mut k: usize = 0;
    while k < blocks
        invariant
            len == bytes@.len(),
            blocks == block_count(len as nat),
            k <= blocks,
            len == 0 || word_offset + (len - 1) / 4 <= usize::MAX,
            total == checksum_blocks(bytes@, word_offset as int, k as nat),
        decreases blocks - k,
    {
        let w = block_word(bytes, k);
        let weight = word_weight(word_offset + k);
        total = total.wrapping_add(w.wrapping_mul(weight));
        k += 1;
    }
    total
}

proof fn lemma_wrap_add32_assoc(x: u32, y: u32, z: u32)
    ensures
        wrap_add32(wrap_add32(x, y), z) == wrap_add32(x, wrap_add32(y, z)),
{
    let m: int = 0x1_0000_0000;
    lemma_add_mod_noop(x + y, z as int, m);
    lemma_add_mod_noop(x as int, y + z, m);
    assert((z as int) % m == z);
    assert((x as int) % m == x);
    assert(((x + y) + z) == (x + (y + z)));
}

proof fn lemma_blocks_prefix(a: Seq<u8>, b: Seq<u8>, offset: int, n: nat)
    requires
        a.len() % 4 == 0,
        4 * n <= a.len(),
    ensures
        checksum_blocks(a + b, offset, n) == checksum_blocks(a, offset, n),
    decreases n,
{
    if n > 0 {
        lemma_blocks_prefix(a, b, offset, (n - 1) as nat);
        assert(block(a + b, n - 1) =~= block(a, n - 1));
    }
}

proof fn lemma_blocks_suffix(a: Seq<u8>, b: Seq<u8>, offset: int, m: nat)
    requires
        a.len() % 4 == 0,
        m <= block_count(b.len()),
    ensures
        checksum_blocks(a + b, offset, a.len() / 4 + m) == wrap_add32(
            checksum_blocks(a, offset, a.len() / 4),
            checksum_blocks(b, offset + a.len() / 4, m),
        ),
    decreases m,
{
    let na = a.len() / 4;
    if m == 0 {
        lemma_blocks_prefix(a, b, offset, na);
        assert(checksum_blocks(a, offset, na) < 0x1_0000_0000);
    } else {
        lemma_blocks_suffix(a, b, offset, (m - 1) as nat);
        assert(block(a + b, na + m - 1) =~= block(b, m - 1));
        let t = wrap_mul32(le_word(block(b, m - 1)), block_weight(offset + na + m - 1));
        lemma_wrap_add32_assoc(
            checksum_blocks(a, offset, na),
            checksum_blocks(b, offset + na, (m - 1) as nat),
            t,
        );
    }
}

/// Checksums compose over concatenation: when `a` is a whole number of words, the checksum
/// of `a + b` is the checksum of `a` plus that of `b` started at the word after `a`'s last.
pub proof fn lemma_checksum_concat(a: Seq<u8>, b: Seq<u8>, offset: int)
    requires
        a.len() % 4 == 0,
    ensures
        checksum_of(a + b, offset) == wrap_add32(
            checksum_of(a, offset),
            checksum_of(b, offset + a.len() / 4),
        ),
{
    assert(block_count((a + b).len()) == a.len() / 4 + block_count(b.len()));
    assert(block_count(a.len()) == a.len() / 4);
    lemma_blocks_suffix(a, b, offset, block_count(b.len()));
}

proof fn lemma_padded_blocks(b: Seq<u8>, padded: Seq<u8>, offset: int, n: nat)
    requires
        padded.len() % 4 == 0,
        b.len() <= padded.len() < b.len() + 4,
        forall|j: int| 0 <= j < b.len() ==> padded[j] == b[j],
        forall|j: int| b.len() <= j < padded.len() ==> padded[j] == 0,
        n <= block_count(b.len()),
    ensures
        checksum_blocks(padded, offset, n) == checksum_blocks(b, offset, n),
    decreases n,
{
    if n > 0 {
        lemma_padded_blocks(b, padded, offset, (n - 1) as nat);
        let k = n - 1;
        let pb = block(padded, k);
        let bb = block(b, k);
        assert(4 * k + 4 <= padded.len());
        assert forall|j: int| 0 <= j < 4 implies byte_or_zero(pb, j) == byte_or_zero(bb, j) by {
            if 4 * k + j < b.len() {
                assert(pb[j] == padded[4 * k + j]);
                assert(bb[j] == b[4 * k + j]);
            } else {
                assert(pb[j] == padded[4 * k + j]);
            }
        }
        assert(le_word(pb) == le_word(bb));
    }
}

/// `n` zero bytes.
pub open spec fn zeros(n: nat) -> Seq<u8> {
    Seq::new(n, |j: int| 0u8)
}

/// A trailing partial word counts as if it were padded with zero bytes.
pub proof fn lemma_checksum_zero_padding(b: Seq<u8>, offset: int, pad: nat)
    requires
        pad < 4,
        (b.len() + pad) % 4 == 0,
    ensures
        checksum_of(b + zeros(pad), offset) == checksum_of(b, offset),
{
    let padded = b + zeros(pad);
    assert(block_count(padded.len()) == block_count(b.len()));
    assert forall|j: int| 0 <= j < b.len() implies padded[j] == b[j] by {}
    assert forall|j: int| b.len() <= j < padded.len() implies padded[j] == 0 by {}
    lemma_padded_blocks(b, padded, offset, block_count(b.len()));
}

proof fn lemma_zero_blocks(m: nat, offset: int, n: nat)
    requires
        n <= block_count(m),
    ensures
        checksum_blocks(zeros(m), offset, n) == 0,
    decreases n,
{
    if n > 0 {
        lemma_zero_blocks(m, offset, (n - 1) as nat);
        let blk = block(zeros(m), n - 1);
        assert forall|j: int| 0 <= j < 4 implies byte_or_zero(blk, j) == 0 by {
            if 0 <= j < blk.len() {
                assert(blk[j] == zeros(m)[4 * (n - 1) + j]);
            }
        }
        assert(le_word(blk) == 0);
    }
}

proof fn lemma_trailing_zeros_within_word(b: Seq<u8>, offset: int, n: nat, pad: nat)
    requires
        pad < 4,
        (b.len() + pad) % 4 == 0,
        n <= pad,
    ensures
        checksum_of(b + zeros(n), offset) == checksum_of(b, offset),
{
    let c = b + zeros(n);
    let rest: nat = (pad - n) as nat;
    assert(c + zeros(rest) =~= b + zeros(pad));
    lemma_checksum_zero_padding(c, offset, rest);
    lemma_checksum_zero_padding(b, offset, pad);
}

proof fn lemma_trailing_zero_words(a: Seq<u8>, offset: int, m: nat)
    requires
        a.len() % 4 == 0,
    ensures
        checksum_of(a + zeros(m), offset) == checksum_of(a, offset),
{
    lemma_checksum_concat(a, zeros(m), offset);
    lemma_zero_blocks(m, offset + a.len() / 4, block_count(m));
    assert(checksum_of(zeros(m), offset + a.len() / 4) == 0);
    assert(checksum_of(a, offset) < 0x1_0000_0000);
}

/// Trailing zero bytes never change a checksum, whether they complete the last partial word
/// or add whole words.
pub proof fn lemma_checksum_trailing_zeros(b: Seq<u8>, offset: int, n: nat)
    ensures
        checksum_of(b + zeros(n), offset) == checksum_of(b, offset),
{
    let pad: nat = ((4 - b.len() % 4) % 4) as nat;
    assert((b.len() + pad) % 4 == 0);
    if n <= pad {
        lemma_trailing_zeros_within_word(b, offset, n, pad);
    } else {
        let a = b + zeros(pad);
        let tail: nat = (n - pad) as nat;
        assert(b + zeros(n) =~= a + zeros(tail));
        lemma_trailing_zero_words(a, offset, tail);
        lemma_checksum_zero_padding(b, offset, pad);
    }
}

} // verus!
