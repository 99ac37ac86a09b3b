//! The mathematical definition of BLAKE2b over sequences, against which the
//! engine and the adapter are proved.
use vstd::bytes::{spec_u64_from_le_bytes, spec_u64_to_le_bytes};
use vstd::arithmetic::div_mod::{lemma_fundamental_div_mod, lemma_fundamental_div_mod_converse};
use vstd::prelude::*;

verus! {

/// Size of a compression block in bytes.
pub const BLOCK_LEN: usize = 128;

/// The initialisation vector (shared with SHA-512).
pub const IV: [u64; 8] = [
    0x6a09e667f3bcc908,
    0xbb67ae8584caa73b,
    0x3c6ef372fe94f82b,
    0xa54ff53a5f1d36f1,
    0x510e527fade682d1,
    0x9b05688c2b3e6c1f,
    0x1f83d9abfb41bd6b,
    0x5be0cd19137e2179,
];

/// The message schedule: row `r` lists the message words that round `r` feeds
/// to its eight mixing steps, two per step. Rows 10 and 11 repeat rows 0 and 1.
pub const SIGMA: [[u8; 16]; 12] = [
    [0, 1, 2, 3, 4, 5, 6, 7, 8, 9, 10, 11, 12, 13, 14, 15],
    [14, 10, 4, 8, 9, 15, 13, 6, 1, 12, 0, 2, 11, 7, 5, 3],
    [11, 8, 12, 0, 5, 2, 15, 13, 10, 14, 3, 6, 7, 1, 9, 4],
    [7, 9, 3, 1, 13, 12, 11, 14, 2, 6, 5, 10, 4, 0, 15, 8],
    [9, 0, 5, 7, 2, 4, 10, 15, 14, 1, 11, 12, 6, 8, 3, 13],
    [2, 12, 6, 10, 0, 11, 8, 3, 4, 13, 7, 5, 15, 14, 1, 9],
    [12, 5, 1, 15, 14, 13, 4, 10, 0, 7, 6, 3, 9, 2, 8, 11],
    [13, 11, 7, 14, 12, 1, 3, 9, 5, 0, 15, 4, 8, 6, 2, 10],
    [6, 15, 14, 9, 11, 3, 0, 8, 12, 2, 13, 7, 1, 4, 10, 5],
    [10, 2, 8, 4, 7, 6, 1, 5, 15, 11, 9, 14, 3, 12, 13, 0],
    [0, 1, 2, 3, 4, 5, 6, 7, 8, 9, 10, 11, 12, 13, 14, 15],
    [14, 10, 4, 8, 9, 15, 13, 6, 1, 12, 0, 2, 11, 7, 5, 3],
];

/// Right rotation of a 64-bit word by `n` bits, `0 < n < 64`.
pub open spec fn rotr(x: u64, n: u64) -> u64 {
    (x >> n) | (x << ((64 - n) as u64))
}

/// The mixing step G on the working vector `v`, at positions `a`, `b`, `c`,
/// `d`, with message words `x` and `y`.
pub open spec fn mix(v: Seq<u64>, a: int, b: int, c: int, d: int, x: u64, y: u64) -> Seq<u64> {
    let a1 = v[a].wrapping_add(v[b]).wrapping_add(x);
    let d1 = rotr(v[d] ^ a1, 32);
    let c1 = v[c].wrapping_add(d1);
    let b1 = rotr(v[b] ^ c1, 24);
    let a2 = a1.wrapping_add(b1).wrapping_add(y);
    let d2 = rotr(d1 ^ a2, 16);
    let c2 = c1.wrapping_add(d2);
    let b2 = rotr(b1 ^ c2, 63);
    v.update(a, a2).update(b, b2).update(c, c2).update(d, d2)
}

/// Mixing step `i` of round `r`: G with the two message words that the
/// schedule picks for it.
pub open spec fn mix_step(
    v: Seq<u64>,
    m: Seq<u64>,
    r: int,
    i: int,
    a: int,
    b: int,
    c: int,
    d: int,
) -> Seq<u64> {
    mix(v, a, b, c, d, m[SIGMA[r][2 * i] as int], m[SIGMA[r][2 * i + 1] as int])
}

/// Round `r`: four column steps, then four diagonal steps.
pub open spec fn round(v: Seq<u64>, m: Seq<u64>, r: int) -> Seq<u64> {
    let v = mix_step(v, m, r, 0, 0, 4, 8, 12);
    let v = mix_step(v, m, r, 1, 1, 5, 9, 13);
    let v = mix_step(v, m, r, 2, 2, 6, 10, 14);
    let v = mix_step(v, m, r, 3, 3, 7, 11, 15);
    let v = mix_step(v, m, r, 4, 0, 5, 10, 15);
    let v = mix_step(v, m, r, 5, 1, 6, 11, 12);
    let v = mix_step(v, m, r, 6, 2, 7, 8, 13);
    mix_step(v, m, r, 7, 3, 4, 9, 14)
}

/// The first `n` rounds, in order.
pub open spec fn rounds(v: Seq<u64>, m: Seq<u64>, n: nat) -> Seq<u64>
    decreases n,
{
    if n == 0 {
        v
    } else {
        round(rounds(v, m, (n - 1) as nat), m, n - 1)
    }
}

/// A 128-byte block read as sixteen little-endian words.
pub open spec fn block_words(block: Seq<u8>) -> Seq<u64> {
    Seq::new(16, |i: int| spec_u64_from_le_bytes(block.subrange(8 * i, 8 * i + 8)))
}

/// The working vector that a compression starts from.
pub open spec fn initial_work(h: Seq<u64>, t0: u64, t1: u64, f0: u64, f1: u64) -> Seq<u64> {
    h.subrange(0, 8) + seq![
        IV[0],
        IV[1],
        IV[2],
        IV[3],
        IV[4] ^ t0,
        IV[5] ^ t1,
        IV[6] ^ f0,
        IV[7] ^ f1,
    ]
}

/// The compression function F: chaining value `h`, block, counter words and
/// flag words to the next chaining value.
#[verifier::opaque]
pub open spec fn compress(h: Seq<u64>, block: Seq<u8>, t0: u64, t1: u64, f0: u64, f1: u64) -> Seq<
    u64,
> {
    let w = rounds(initial_work(h, t0, t1, f0, f1), block_words(block), 12);
    Seq::new(8, |i: int| h[i] ^ w[i] ^ w[i + 8])
}

/// The low word of the 128-bit byte counter after `count` bytes.
pub open spec fn counter_lo(count: int) -> u64 {
    (count % 0x1_0000_0000_0000_0000) as u64
}

/// The high word of the 128-bit byte counter after `count` bytes.
pub open spec fn counter_hi(count: int) -> u64 {
    ((count / 0x1_0000_0000_0000_0000) % 0x1_0000_0000_0000_0000) as u64
}

/// `n` zero bytes.
pub open spec fn zeros(n: nat) -> Seq<u8> {
    Seq::new(n, |i: int| 0u8)
}

/// `bytes` followed by zeros up to `width` bytes.
pub open spec fn zero_padded(bytes: Seq<u8>, width: nat) -> Seq<u8> {
    bytes + zeros((width - bytes.len()) as nat)
}

/// How many blocks are compressed before the last one, for `len` bytes of
/// input: the last block is never empty unless the whole input is.
pub open spec fn full_blocks(len: nat) -> nat {
    if len == 0 {
        0
    } else {
        ((len - 1) / 128) as nat
    }
}

/// The chaining value after compressing the first `n` blocks of `data`, none
/// of them the last.
pub open spec fn absorb_blocks(h: Seq<u64>, data: Seq<u8>, n: nat) -> Seq<u64>
    decreases n,
{
    if n == 0 {
        h
    } else {
        compress(
            absorb_blocks(h, data, (n - 1) as nat),
            data.subrange(128 * (n - 1), 128 * n as int),
            counter_lo(128 * n as int),
            counter_hi(128 * n as int),
            0,
            0,
        )
    }
}

/// The chaining value serialised as little-endian bytes.
pub open spec fn le_bytes(h: Seq<u64>) -> Seq<u8>
    decreases h.len(),
{
    if h.len() == 0 {
        Seq::empty()
    } else {
        le_bytes(h.drop_last()) + spec_u64_to_le_bytes(h.last())
    }
}

/// The chaining value after the last block of `data`.
pub open spec fn final_chain(h0: Seq<u64>, data: Seq<u8>) -> Seq<u64> {
    let n = full_blocks(data.len());
    compress(
        absorb_blocks(h0, data, n),
        zero_padded(data.subrange(128 * n as int, data.len() as int), 128),
        counter_lo(data.len() as int),
        counter_hi(data.len() as int),
        0xffff_ffff_ffff_ffff,
        0,
    )
}

/// The `out_len`-byte digest of `data`, starting from chaining value `h0`.
pub open spec fn digest(h0: Seq<u64>, data: Seq<u8>, out_len: nat) -> Seq<u8> {
    le_bytes(final_chain(h0, data)).subrange(0, out_len as int)
}

/// The 64-byte parameter block: digest length, key length, fan-out 1,
/// depth 1, zeroed tree fields, then salt and personalisation, each padded
/// with zeros to 16 bytes.
pub open spec fn param_block(out_len: nat, key_len: nat, salt: Seq<u8>, info: Seq<u8>) -> Seq<u8> {
    seq![out_len as u8, key_len as u8, 1u8, 1u8] + zeros(28) + zero_padded(salt, 16) + zero_padded(
        info,
        16,
    )
}

/// The initial chaining value: the parameter block, read as eight
/// little-endian words, XOR the initialisation vector.
pub open spec fn chain_init(params: Seq<u8>) -> Seq<u64> {
    Seq::new(8, |i: int| IV[i] ^ spec_u64_from_le_bytes(params.subrange(8 * i, 8 * i + 8)))
}

/// What a key contributes to the input: nothing, or the key padded with
/// zeros to a whole block.
pub open spec fn key_block(key: Seq<u8>) -> Seq<u8> {
    if key.len() == 0 {
        Seq::empty()
    } else {
        zero_padded(key, 128)
    }
}

/// BLAKE2b with digest length `out_len`, key, salt and personalisation
/// `info`, over `msg`.
pub open spec fn blake2b(
    out_len: nat,
    key: Seq<u8>,
    salt: Seq<u8>,
    info: Seq<u8>,
    msg: Seq<u8>,
) -> Seq<u8> {
    digest(chain_init(param_block(out_len, key.len(), salt, info)), key_block(key) + msg, out_len)
}

/// Plain (unkeyed) BLAKE2b.
pub open spec fn blake2b_hash(out_len: nat, msg: Seq<u8>) -> Seq<u8> {
    blake2b(out_len, Seq::empty(), Seq::empty(), Seq::empty(), msg)
}

/// Keyed BLAKE2b, used as a MAC.
pub open spec fn blake2b_mac(out_len: nat, key: Seq<u8>, msg: Seq<u8>) -> Seq<u8> {
    blake2b(out_len, key, Seq::empty(), Seq::empty(), msg)
}

/// BLAKE2b as a key derivation function: keyed, salted and personalised,
/// over an empty message.
pub open spec fn blake2b_kdf(out_len: nat, base_key: Seq<u8>, salt: Seq<u8>, info: Seq<u8>) -> Seq<
    u8,
> {
    blake2b(out_len, base_key, salt, info, Seq::empty())
}

/// Adding `k` bytes to the counter: the low word wraps, and a wrap of the
/// low word carries into the high word.
pub proof fn lemma_counter_add(count: int, k: u64)
    requires
        0 <= count,
    ensures
        counter_lo(count).wrapping_add(k) == counter_lo(count + k),
        (if counter_lo(count).wrapping_add(k) < k {
            counter_hi(count).wrapping_add(1)
        } else {
            counter_hi(count)
        }) == counter_hi(count + k),
{
    let m: int = 0x1_0000_0000_0000_0000;
    let q = count / m;
    let r = count % m;
    lemma_fundamental_div_mod(count, m);
    lemma_fundamental_div_mod(q, m);
    if r + k < m {
        lemma_fundamental_div_mod_converse(count + k, m, q, r + k);
    } else {
        lemma_fundamental_div_mod_converse(count + k, m, q + 1, r + k - m);
        if q % m + 1 < m {
            lemma_fundamental_div_mod_converse(q + 1, m, q / m, q % m + 1);
        } else {
            lemma_fundamental_div_mod_converse(q + 1, m, q / m + 1, 0);
        }
    }
}

/// Before any input the counter is zero.
pub proof fn lemma_counter_zero()
    ensures
        counter_lo(0) == 0,
        counter_hi(0) == 0,
{
}

/// Compressing the first `n` blocks reads only the first `128 * n` bytes.
pub proof fn lemma_absorb_prefix(h: Seq<u64>, a: Seq<u8>, b: Seq<u8>, n: nat)
    requires
        128 * n <= a.len(),
        128 * n <= b.len(),
        a.subrange(0, 128 * n as int) == b.subrange(0, 128 * n as int),
    ensures
        absorb_blocks(h, a, n) == absorb_blocks(h, b, n),
    decreases n,
{
    if n > 0 {
        let k = (n - 1) as nat;
        assert forall|i: int| 0 <= i < 128 * k implies a[i] == b[i] by {
            assert(a[i] == a.subrange(0, 128 * n as int)[i]);
            assert(b[i] == b.subrange(0, 128 * n as int)[i]);
        }
        assert(a.subrange(0, 128 * k as int) =~= b.subrange(0, 128 * k as int));
        lemma_absorb_prefix(h, a, b, k);
        assert forall|i: int| 128 * k <= i < 128 * n implies a[i] == b[i] by {
            assert(a[i] == a.subrange(0, 128 * n as int)[i]);
            assert(b[i] == b.subrange(0, 128 * n as int)[i]);
        }
        assert(a.subrange(128 * k as int, 128 * n as int) =~= b.subrange(
            128 * k as int,
            128 * n as int,
        ));
    }
}

/// With `128 * n + r` bytes of input, `1 <= r <= 128`, the first `n` blocks
/// are the ones compressed before the last.
pub proof fn lemma_full_blocks(n: nat, r: nat)
    requires
        1 <= r <= 128,
    ensures
        full_blocks(128 * n + r) == n,
{
    lemma_fundamental_div_mod_converse((128 * n + r - 1) as int, 128, n as int, r - 1);
}

/// The serialised chaining value has eight bytes per word.
pub proof fn lemma_le_bytes_len(h: Seq<u64>)
    ensures
        le_bytes(h).len() == 8 * h.len(),
    decreases h.len(),
{
    vstd::bytes::lemma_auto_spec_u64_to_from_le_bytes();
    if h.len() > 0 {
        lemma_le_bytes_len(h.drop_last());
    }
}

} // verus!
