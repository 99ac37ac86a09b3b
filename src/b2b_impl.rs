//! The BLAKE2b engine: parameter block, compression, buffering and
//! finalisation.
use crate::model::{
    absorb_blocks, block_words, chain_init, compress, counter_hi, counter_lo, digest, full_blocks,
    initial_work, key_block, le_bytes, lemma_absorb_prefix, lemma_counter_add, lemma_counter_zero,
    lemma_full_blocks, lemma_le_bytes_len, mix_step, param_block, rotr, round, rounds, zero_padded,
    zeros, BLOCK_LEN, IV, SIGMA,
};
use vstd::bytes::{u64_from_le_bytes, u64_to_le_bytes};
use vstd::prelude::*;
use vstd::slice::slice_subrange;

verus! {

/// Right rotation of a 64-bit word.
fn rotr_word(x: u64, n: u64) -> (r: u64)
    requires
        0 < n < 64,
    ensures
        r == rotr(x, n),
{
    (x >> n) | (x << (64 - n))
}

/// Appends `n` zero bytes to `p`.
fn push_zeros(p: &mut Vec<u8>, n: usize)
    ensures
        final(p)@ == old(p)@ + zeros(n as nat),
{
    for i in 0..n
        invariant
            p@ == old(p)@ + zeros(i as nat),
    {
        p.push(0);
        assert(p@ =~= old(p)@ + zeros((i + 1) as nat));
    }
}

/// Appends `bytes` to `p`, then zeros up to `width` bytes.
fn push_padded(p: &mut Vec<u8>, bytes: &[u8], width: usize)
    requires
        bytes@.len() <= width,
    ensures
        final(p)@ == old(p)@ + zero_padded(bytes@, width as nat),
{
    for i in 0..bytes.len()
        invariant
            p@ == old(p)@ + bytes@.subrange(0, i as int),
    {
        p.push(bytes[i]);
        assert(p@ =~= old(p)@ + bytes@.subrange(0, i + 1));
    }
    assert(bytes@.subrange(0, bytes@.len() as int) =~= bytes@);
    push_zeros(p, width - bytes.len());
    assert(final(p)@ =~= old(p)@ + zero_padded(bytes@, width as nat)) by {
        assert(final(p)@ =~= old(p)@ + bytes@ + zeros((width - bytes@.len()) as nat));
    }
}

/// The mixing step G of round `r`, step `i`, on positions `a`, `b`, `c`, `d`.
fn g(r: usize, i: usize, v: &mut [u64; 16], m: &[u64; 16], a: usize, b: usize, c: usize, d: usize)
    requires
        r < 12,
        i < 8,
        a < 16,
        b < 16,
        c < 16,
        d < 16,
        a != b,
        a != c,
        a != d,
        b != c,
        b != d,
        c != d,
    ensures
        final(v)@ == mix_step(old(v)@, m@, r as int, i as int, a as int, b as int, c as int, d as int),
{
    let x = m[SIGMA[r][2 * i] as usize];
    let y = m[SIGMA[r][2 * i + 1] as usize];
    let a1 = v[a].wrapping_add(v[b]).wrapping_add(x);
    let d1 = rotr_word(v[d] ^ a1, 32);
    let c1 = v[c].wrapping_add(d1);
    let b1 = rotr_word(v[b] ^ c1, 24);
    let a2 = a1.wrapping_add(b1).wrapping_add(y);
    let d2 = rotr_word(d1 ^ a2, 16);
    let c2 = c1.wrapping_add(d2);
    let b2 = rotr_word(b1 ^ c2, 63);
    v[a] = a2;
    v[b] = b2;
    v[c] = c2;
    v[d] = d2;
}

/// One round of the compression function.
fn round_step(r: usize, v: &mut [u64; 16], m: &[u64; 16])
    requires
        r < 12,
    ensures
        final(v)@ == round(old(v)@, m@, r as int),
{
    g(r, 0, v, m, 0, 4, 8, 12);
    g(r, 1, v, m, 1, 5, 9, 13);
    g(r, 2, v, m, 2, 6, 10, 14);
    g(r, 3, v, m, 3, 7, 11, 15);
    g(r, 4, v, m, 0, 5, 10, 15);
    g(r, 5, v, m, 1, 6, 11, 12);
    g(r, 6, v, m, 2, 7, 8, 13);
    g(r, 7, v, m, 3, 4, 9, 14);
}

/// A Blake2b state with the real implementation
pub struct B2Impl {
    /// The chaining value
    h: [u64; 8],
    /// The byte counter, low word first
    t: [u64; 2],
    /// The finalisation flags: `f[0]` marks the last block; `f[1]`, the
    /// last-node flag of tree hashing, stays zero as only sequential hashing
    /// is offered
    f: [u64; 2],
    /// Input not yet compressed: at most one block, the last one so far
    buf: Vec<u8>,
    /// The digest length, 1 to 64
    hash_len: usize,
    /// The chaining value that the parameter block gave.
    chain0: Ghost<Seq<u64>>,
    /// Every byte absorbed so far, the key block included.
    input: Ghost<Seq<u8>>,
}

impl B2Impl {
    /// The chaining value that the parameter block gave, before any input.
    pub closed spec fn initial_chain(&self) -> Seq<u64> {
        self.chain0@
    }

    /// Every byte absorbed so far, the key block of a keyed state included.
    pub closed spec fn absorbed(&self) -> Seq<u8> {
        self.input@
    }

    /// The digest length that the state was made for.
    pub closed spec fn output_len(&self) -> nat {
        self.hash_len as nat
    }

    /// The last block has been compressed: the state takes no more input.
    pub closed spec fn is_finalized(&self) -> bool {
        self.f[0] != 0
    }

    /// The digest of everything absorbed so far.
    pub open spec fn digest(&self) -> Seq<u8> {
        digest(self.initial_chain(), self.absorbed(), self.output_len())
    }

    /// The first `nb` blocks of the input are compressed and counted, and the
    /// buffer holds the rest.
    closed spec fn holds_blocks(&self, nb: nat) -> bool {
        &&& self.input@.len() == 128 * nb + self.buf@.len()
        &&& self.buf@ == self.input@.subrange(128 * nb as int, self.input@.len() as int)
        &&& self.h@ == absorb_blocks(self.chain0@, self.input@, nb)
        &&& self.t[0] == counter_lo(128 * nb as int)
        &&& self.t[1] == counter_hi(128 * nb as int)
    }

    /// The state's invariant: before finalisation, every block but the last
    /// is compressed and the last waits in the buffer.
    pub closed spec fn wf(&self) -> bool {
        &&& 1 <= self.hash_len <= 64
        &&& self.buf@.len() <= 128
        &&& self.chain0@.len() == 8
        &&& self.f[1] == 0
        &&& self.f[0] == 0 ==> self.holds_blocks(full_blocks(self.input@.len()))
    }

    /// Initializes the state as hash with `out_len`
    pub fn init(out_len: usize) -> (r: Self)
        requires
            1 <= out_len <= 64,
        ensures
            r.wf(),
            !r.is_finalized(),
            r.output_len() == out_len,
            r.initial_chain() == chain_init(
                param_block(out_len as nat, 0, Seq::empty(), Seq::empty()),
            ),
            r.absorbed() == Seq::<u8>::empty(),
    {
        let none: Vec<u8> = Vec::new();
        Self::init_kdf(out_len, none.as_slice(), none.as_slice(), none.as_slice())
    }

    /// Initializes the state as MAC with `out_len` and `key`
    pub fn init_mac(out_len: usize, key: &[u8]) -> (r: Self)
        requires
            1 <= out_len <= 64,
            key@.len() <= 64,
        ensures
            r.wf(),
            !r.is_finalized(),
            r.output_len() == out_len,
            r.initial_chain() == chain_init(
                param_block(out_len as nat, key@.len(), Seq::empty(), Seq::empty()),
            ),
            r.absorbed() == key_block(key@),
    {
        let none: Vec<u8> = Vec::new();
        Self::init_kdf(out_len, key, none.as_slice(), none.as_slice())
    }

    /// Initializes the state as KDF with `out_len`, `base_key`, `salt` and `info`
    pub fn init_kdf(out_len: usize, base_key: &[u8], salt: &[u8], info: &[u8]) -> (r: Self)
        requires
            1 <= out_len <= 64,
            base_key@.len() <= 64,
            salt@.len() <= 16,
            info@.len() <= 16,
        ensures
            r.wf(),
            !r.is_finalized(),
            r.output_len() == out_len,
            r.initial_chain() == chain_init(
                param_block(out_len as nat, base_key@.len(), salt@, info@),
            ),
            r.absorbed() == key_block(base_key@),
    {
        // The parameter block: lengths, fan-out and depth, tree fields, salt, info
        let mut p: Vec<u8> = Vec::new();
        p.push(out_len as u8);
        p.push(base_key.len() as u8);
        p.push(1);
        p.push(1);
        push_zeros(&mut p, 28);
        push_padded(&mut p, salt, 16);
        push_padded(&mut p, info, 16);
        let ghost params = param_block(out_len as nat, base_key@.len(), salt@, info@);
        assert(p@ =~= params);

        // Xor the parameters with the IV
        let mut h: [u64; 8] = [0; 8];
        for i in 0..8
            invariant
                p@ == params,
                p@.len() == 64,
                forall|j: int| 0 <= j < i ==> h[j] == #[trigger] chain_init(params)[j],
        {
            h[i] = IV[i] ^ u64_from_le_bytes(slice_subrange(p.as_slice(), 8 * i, 8 * i + 8));
        }
        assert(h@ =~= chain_init(params));
        proof {
            lemma_counter_zero();
        }
        let mut b2 = B2Impl {
            h,
            t: [0, 0],
            f: [0, 0],
            buf: Vec::new(),
            hash_len: out_len,
            chain0: Ghost(chain_init(params)),
            input: Ghost(Seq::empty()),
        };
        assert(b2.buf@ =~= b2.input@.subrange(0, 0));

        // Hash the key as `0`-padded 128 byte block
        if base_key.len() > 0 {
            let mut block: Vec<u8> = Vec::new();
            push_padded(&mut block, base_key, BLOCK_LEN);
            b2.update(block.as_slice());
            assert(b2.input@ =~= key_block(base_key@));
        } else {
            assert(b2.input@ =~= key_block(base_key@));
        }
        b2
    }

    /// The compression function
    #[verifier::rlimit(40)]
    fn compress(&mut self)
        requires
            old(self).buf@.len() == 128,
        ensures
            final(self).h@ == compress(
                old(self).h@,
                old(self).buf@,
                old(self).t[0],
                old(self).t[1],
                old(self).f[0],
                old(self).f[1],
            ),
            final(self).t == old(self).t,
            final(self).f == old(self).f,
            final(self).buf == old(self).buf,
            final(self).hash_len == old(self).hash_len,
            final(self).chain0 == old(self).chain0,
            final(self).input == old(self).input,
    {
        let mut m: [u64; 16] = [0; 16];
        for i in 0..16
            invariant
                self.buf@.len() == 128,
                forall|j: int| 0 <= j < i ==> m[j] == #[trigger] block_words(self.buf@)[j],
        {
            m[i] = u64_from_le_bytes(slice_subrange(self.buf.as_slice(), 8 * i, 8 * i + 8));
        }
        assert(m@ == block_words(self.buf@));
        let mut v: [u64; 16] = [
            self.h[0],
            self.h[1],
            self.h[2],
            self.h[3],
            self.h[4],
            self.h[5],
            self.h[6],
            self.h[7],
            IV[0],
            IV[1],
            IV[2],
            IV[3],
            IV[4] ^ self.t[0],
            IV[5] ^ self.t[1],
            IV[6] ^ self.f[0],
            IV[7] ^ self.f[1],
        ];
        let ghost h0 = self.h@;
        let ghost v0 = v@;
        assert(v0 == initial_work(h0, self.t[0], self.t[1], self.f[0], self.f[1]));
        for r in 0..12
            invariant
                v@ == rounds(v0, m@, r as nat),
        {
            round_step(r, &mut v, &m);
        }
        for i in 0..8
            invariant
                h0.len() == 8,
                h0 == old(self).h@,
                v@ == rounds(v0, m@, 12),
                self.t == old(self).t,
                self.f == old(self).f,
                self.buf == old(self).buf,
                self.hash_len == old(self).hash_len,
                self.chain0 == old(self).chain0,
                self.input == old(self).input,
                forall|j: int| 0 <= j < i ==> self.h[j] == h0[j] ^ v[j] ^ v[j + 8],
                forall|j: int| i <= j < 8 ==> self.h[j] == h0[j],
        {
            self.h[i] = self.h[i] ^ v[i] ^ v[i + 8];
        }
        reveal(compress);
        assert(self.h@ =~= compress(h0, self.buf@, self.t[0], self.t[1], self.f[0], self.f[1]));
    }

    /// The invariant's parts that hold while input is being absorbed.
    closed spec fn absorbing(&self) -> bool {
        &&& 1 <= self.hash_len <= 64
        &&& self.buf@.len() <= 128
        &&& self.chain0@.len() == 8
        &&& self.f[0] == 0
        &&& self.f[1] == 0
    }

    /// Compresses the full buffer as a block that is not the last, and
    /// empties the buffer.
    fn compress_block(&mut self, Ghost(nb): Ghost<nat>)
        requires
            old(self).absorbing(),
            old(self).holds_blocks(nb),
            old(self).buf@.len() == 128,
        ensures
            final(self).absorbing(),
            final(self).holds_blocks(nb + 1),
            final(self).buf@.len() == 0,
            final(self).input == old(self).input,
            final(self).chain0 == old(self).chain0,
            final(self).hash_len == old(self).hash_len,
    {
        // Increment counter
        proof {
            lemma_counter_add(128 * nb as int, 128);
        }
        self.t[0] = self.t[0].wrapping_add(128);
        if self.t[0] < 128 {
            self.t[1] = self.t[1].wrapping_add(1);
        }
        // Compress block and clear buffer
        self.compress();
        self.buf.clear();
        assert(self.buf@ =~= self.input@.subrange(
            128 * (nb + 1) as int,
            self.input@.len() as int,
        ));
    }

    /// Appends `data[start..end]` to the buffer, which has room for it.
    fn buffer_input(&mut self, data: &[u8], start: usize, end: usize, Ghost(nb): Ghost<nat>)
        requires
            old(self).absorbing(),
            old(self).holds_blocks(nb),
            start < end <= data@.len(),
            old(self).buf@.len() + (end - start) <= 128,
        ensures
            final(self).absorbing(),
            final(self).holds_blocks(nb),
            final(self).buf@.len() >= 1,
            final(self).input@ == old(self).input@ + data@.subrange(start as int, end as int),
            final(self).chain0 == old(self).chain0,
            final(self).hash_len == old(self).hash_len,
    {
        let mut pos = start;
        while pos < end
            invariant
                start <= pos <= end <= data@.len(),
                self.absorbing(),
                self.holds_blocks(nb),
                self.buf@.len() + (end - pos) <= 128,
                pos > start ==> self.buf@.len() >= 1,
                self.input@ == old(self).input@ + data@.subrange(start as int, pos as int),
                self.chain0 == old(self).chain0,
                self.hash_len == old(self).hash_len,
            decreases end - pos,
        {
            let ghost before = self.input@;
            self.buf.push(data[pos]);
            self.input = Ghost(self.input@.push(data@[pos as int]));
            pos = pos + 1;
            assert(self.input@ =~= old(self).input@ + data@.subrange(start as int, pos as int));
            assert(self.buf@ =~= self.input@.subrange(128 * nb as int, self.input@.len() as int));
            assert(before.subrange(0, 128 * nb as int) =~= self.input@.subrange(
                0,
                128 * nb as int,
            ));
            proof {
                lemma_absorb_prefix(self.chain0@, before, self.input@, nb);
            }
        }
    }

    /// Updates the state with `data`
    pub fn update(&mut self, data: &[u8]) -> (r: &mut Self)
        requires
            old(self).wf(),
            !old(self).is_finalized(),
        ensures
            r.wf(),
            !r.is_finalized(),
            r.absorbed() == old(self).absorbed() + data@,
            r.initial_chain() == old(self).initial_chain(),
            r.output_len() == old(self).output_len(),
            *final(self) == *final(r),
    {
        let mut pos: usize = 0;
        while pos < data.len()
            invariant
                self.wf(),
                !self.is_finalized(),
                pos <= data@.len(),
                self.input@ == old(self).input@ + data@.subrange(0, pos as int),
                self.chain0 == old(self).chain0,
                self.hash_len == old(self).hash_len,
            decreases data@.len() - pos,
        {
            let ghost mut nb: nat = full_blocks(self.input@.len());
            // Process the full block: more input is pending, so it is not the last
            if self.buf.len() == BLOCK_LEN {
                self.compress_block(Ghost(nb));
                proof {
                    nb = nb + 1;
                }
            }
            // Fill buffer
            let room = BLOCK_LEN - self.buf.len();
            let end = if room < data.len() - pos {
                pos + room
            } else {
                data.len()
            };
            let ghost before = self.input@;
            self.buffer_input(data, pos, end, Ghost(nb));
            proof {
                lemma_full_blocks(nb, self.buf@.len());
                assert(self.input@ =~= old(self).input@ + data@.subrange(0, end as int)) by {
                    assert(before =~= old(self).input@ + data@.subrange(0, pos as int));
                }
            }
            pos = end;
        }
        assert(data@.subrange(0, data@.len() as int) =~= data@);
        self
    }

    /// The chaining value as 64 little-endian bytes.
    fn chain_bytes(&self) -> (out: Vec<u8>)
        ensures
            out@ == le_bytes(self.h@),
            out@.len() == 64,
    {
        let mut out: Vec<u8> = Vec::new();
        for i in 0..8
            invariant
                self.h@.len() == 8,
                out@ == le_bytes(self.h@.subrange(0, i as int)),
        {
            let bytes = u64_to_le_bytes(self.h[i]);
            let ghost prefix = out@;
            for j in 0..8
                invariant
                    bytes@.len() == 8,
                    out@ == prefix + bytes@.subrange(0, j as int),
            {
                out.push(bytes[j]);
                assert(out@ =~= prefix + bytes@.subrange(0, j + 1));
            }
            assert(self.h@.subrange(0, i + 1).drop_last() =~= self.h@.subrange(0, i as int));
            assert(bytes@.subrange(0, 8) =~= bytes@);
        }
        assert(self.h@.subrange(0, 8) =~= self.h@);
        proof {
            lemma_le_bytes_len(self.h@);
        }
        out
    }

    /// Finalizes the state and computes the digest into `buf`
    pub fn finish(&mut self, buf: &mut [u8])
        requires
            old(self).wf(),
            !old(self).is_finalized(),
            old(buf)@.len() == old(self).output_len(),
        ensures
            final(self).wf(),
            final(self).is_finalized(),
            final(self).output_len() == old(self).output_len(),
            final(self).initial_chain() == old(self).initial_chain(),
            final(self).absorbed() == old(self).absorbed(),
            final(buf)@ == old(self).digest(),
    {
        let ghost len = self.input@.len();
        let ghost n = full_blocks(len);
        let ghost last = zero_padded(self.input@.subrange(128 * n as int, len as int), 128);

        // Increment counter
        let pending = self.buf.len() as u64;
        proof {
            lemma_counter_add(128 * n as int, pending);
        }
        self.t[0] = self.t[0].wrapping_add(pending);
        if self.t[0] < pending {
            self.t[1] = self.t[1].wrapping_add(1);
        }

        // Set final block
        self.f[0] = 0xffff_ffff_ffff_ffff;

        // `0`-pad the buffer to a complete block length
        let pad = BLOCK_LEN - self.buf.len();
        push_zeros(&mut self.buf, pad);
        assert(self.buf@ =~= last);
        self.compress();

        // Store the entire 512-bit hash in `out`
        let out = self.chain_bytes();
        let out_len = buf.len();
        for k in 0..out_len
            invariant
                out_len == buf@.len(),
                out_len <= 64,
                out@.len() == 64,
                forall|j: int| 0 <= j < k ==> buf@[j] == out@[j],
        {
            buf[k] = out[k];
        }
        assert(buf@ =~= out@.subrange(0, out_len as int));
    }

    /// The digest length that the state produces.
    pub fn hash_len(&self) -> (r: usize)
        ensures
            r == self.output_len(),
    {
        self.hash_len
    }
}

} // verus!
