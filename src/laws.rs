//! Properties that relate several calls of the engine and the checks before it.
use crate::b2b_api::{absorbed_more, buf_len_error, started};
use crate::b2b_impl::B2Impl;
use crate::model::{blake2b, blake2b_mac, chain_init, key_block, param_block};
use vstd::prelude::*;

verus! {

/// `s` is a running engine for `out_len` bytes, keyed with `key` and
/// parameterised with `salt` and `info`, that has absorbed `msg` after its
/// key block.
pub open spec fn has_absorbed(
    s: B2Impl,
    out_len: nat,
    key: Seq<u8>,
    salt: Seq<u8>,
    info: Seq<u8>,
    msg: Seq<u8>,
) -> bool {
    &&& s.wf()
    &&& !s.is_finalized()
    &&& s.output_len() == out_len
    &&& s.initial_chain() == chain_init(param_block(out_len, key.len(), salt, info))
    &&& s.absorbed() == key_block(key) + msg
}

/// The bytes of `chunks`, one chunk after another.
pub open spec fn concat_chunks(chunks: Seq<Seq<u8>>) -> Seq<u8>
    decreases chunks.len(),
{
    if chunks.len() == 0 {
        Seq::empty()
    } else {
        concat_chunks(chunks.drop_last()) + chunks.last()
    }
}

/// An engine that has absorbed `msg` finalizes to BLAKE2b of `msg` under its
/// parameters.
pub proof fn law_digest_of_absorbed(
    s: B2Impl,
    out_len: nat,
    key: Seq<u8>,
    salt: Seq<u8>,
    info: Seq<u8>,
    msg: Seq<u8>,
)
    requires
        has_absorbed(s, out_len, key, salt, info, msg),
    ensures
        s.digest() == blake2b(out_len, key, salt, info, msg),
{
}

/// Determinism: two engines with the same parameters that have absorbed the
/// same message produce the same digest, whether they hash, authenticate or
/// derive.
pub proof fn law_deterministic(
    s1: B2Impl,
    s2: B2Impl,
    out_len: nat,
    key: Seq<u8>,
    salt: Seq<u8>,
    info: Seq<u8>,
    msg: Seq<u8>,
)
    requires
        has_absorbed(s1, out_len, key, salt, info, msg),
        has_absorbed(s2, out_len, key, salt, info, msg),
    ensures
        s1.digest() == s2.digest(),
{
}

/// Absorbing chunk by chunk is absorbing their concatenation: `states[i + 1]`
/// is `states[i]` after an update with `chunks[i]`.
proof fn lemma_chunks_absorbed(
    states: Seq<B2Impl>,
    chunks: Seq<Seq<u8>>,
    out_len: nat,
    key: Seq<u8>,
    salt: Seq<u8>,
    info: Seq<u8>,
)
    requires
        states.len() == chunks.len() + 1,
        has_absorbed(states[0], out_len, key, salt, info, Seq::empty()),
        forall|i: int|
            #![trigger states[i]]
            0 <= i < chunks.len() ==> absorbed_more(states[i], states[i + 1], chunks[i]),
    ensures
        has_absorbed(states.last(), out_len, key, salt, info, concat_chunks(chunks)),
    decreases chunks.len(),
{
    if chunks.len() == 0 {
        assert(key_block(key) + Seq::<u8>::empty() =~= key_block(key));
    } else {
        let n = chunks.len() - 1;
        let prev = states.drop_last();
        assert forall|i: int| #![trigger prev[i]] 0 <= i < n implies absorbed_more(
            prev[i],
            prev[i + 1],
            chunks.drop_last()[i],
        ) by {
            assert(absorbed_more(states[i], states[i + 1], chunks[i]));
        }
        lemma_chunks_absorbed(prev, chunks.drop_last(), out_len, key, salt, info);
        assert(absorbed_more(states[n], states[n + 1], chunks[n]));
        assert(key_block(key) + concat_chunks(chunks) =~= key_block(key) + concat_chunks(
            chunks.drop_last(),
        ) + chunks.last());
    }
}

/// Chunking invariance: an engine started for `out_len` bytes with `key`
/// (empty for a plain hash), then fed `chunks` one update per chunk, finalizes
/// to the MAC of their concatenation, which is what a single update with the
/// concatenation gives.
pub proof fn law_chunking_invariance(
    states: Seq<B2Impl>,
    chunks: Seq<Seq<u8>>,
    out_len: nat,
    key: Seq<u8>,
)
    requires
        states.len() == chunks.len() + 1,
        started(states[0], out_len, key),
        forall|i: int|
            #![trigger states[i]]
            0 <= i < chunks.len() ==> absorbed_more(states[i], states[i + 1], chunks[i]),
    ensures
        states.last().digest() == blake2b_mac(out_len, key, concat_chunks(chunks)),
{
    assert(key_block(key) + Seq::<u8>::empty() =~= key_block(key));
    lemma_chunks_absorbed(states, chunks, out_len, key, Seq::empty(), Seq::empty());
}

/// Digest lengths from 1 to 64 pass the output buffer check, and every other
/// length is refused by it before the engine runs.
pub proof fn law_output_length_range(len: nat)
    ensures
        buf_len_error(len) is None <==> 1 <= len <= 64,
{
}

} // verus!
