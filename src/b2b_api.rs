//! The checked interface: one-shot hash, MAC and key derivation, and
//! streaming hash and MAC, each validating its lengths before the engine
//! runs.
use crate::b2b_impl::B2Impl;
use crate::model::{blake2b_hash, blake2b_kdf, blake2b_mac, chain_init, key_block, param_block};
use crate::Blake2Error;
use vstd::prelude::*;

verus! {

/// The output buffer is shorter than one byte.
pub const BUF_LEN_TOO_SMALL: &'static str = "`buf.len()` is too small";

/// The output buffer is longer than 64 bytes.
pub const BUF_LEN_TOO_LARGE: &'static str = "`buf.len()` is too large";

/// The output buffer does not have the length that the operation produces.
pub const BUF_LEN_INVALID: &'static str = "`buf.len()` is invalid";

/// The key is empty.
pub const KEY_LEN_TOO_SMALL: &'static str = "`key.len()` is too small";

/// The key is longer than 64 bytes.
pub const KEY_LEN_TOO_LARGE: &'static str = "`key.len()` is too large";

/// The base key is empty.
pub const BASE_KEY_LEN_TOO_SMALL: &'static str = "`base_key.len()` is too small";

/// The base key is longer than 64 bytes.
pub const BASE_KEY_LEN_TOO_LARGE: &'static str = "`base_key.len()` is too large";

/// The salt is longer than 16 bytes.
pub const SALT_LEN_TOO_LARGE: &'static str = "`salt.len()` is too large";

/// The salt is shorter than allowed (never, as empty salts are allowed).
pub const SALT_LEN_TOO_SMALL: &'static str = "`salt.len()` is too small";

/// The personalisation is longer than 16 bytes.
pub const INFO_LEN_TOO_LARGE: &'static str = "`info.len()` is too large";

/// The personalisation is shorter than allowed (never, as empty ones are allowed).
pub const INFO_LEN_TOO_SMALL: &'static str = "`info.len()` is too small";

/// A requested hash length is zero.
pub const HASH_LEN_TOO_SMALL: &'static str = "`hash_len` is too small";

/// A requested hash length is over 64.
pub const HASH_LEN_TOO_LARGE: &'static str = "`hash_len` is too large";

/// A requested MAC length is zero.
pub const MAC_LEN_TOO_SMALL: &'static str = "`mac_len` is too small";

/// A requested MAC length is over 64.
pub const MAC_LEN_TOO_LARGE: &'static str = "`mac_len` is too large";

/// A streaming hash was used before `init`.
pub const HASH_NOT_INITIALIZED: &'static str = "The hash is not initialized";

/// A streaming MAC was used before `init`.
pub const MAC_NOT_INITIALIZED: &'static str = "The MAC is not initialized";

/// The error of a check that `v` lies in `min..=max`, if it does not.
pub open spec fn range_error(
    v: nat,
    min: nat,
    max: nat,
    too_small: &'static str,
    too_large: &'static str,
) -> Option<Blake2Error> {
    if v < min {
        Some(Blake2Error::ApiMisuse(too_small))
    } else if v > max {
        Some(Blake2Error::ApiMisuse(too_large))
    } else {
        None
    }
}

/// The first error of two checks made in order.
pub open spec fn first_error(a: Option<Blake2Error>, b: Option<Blake2Error>) -> Option<
    Blake2Error,
> {
    if a is Some {
        a
    } else {
        b
    }
}

/// The error of an output buffer of `len` bytes for a variable-length
/// digest, if any.
pub open spec fn buf_len_error(len: nat) -> Option<Blake2Error> {
    range_error(len, 1, 64, BUF_LEN_TOO_SMALL, BUF_LEN_TOO_LARGE)
}

/// The error of an output buffer of `len` bytes for a 64-byte digest, if any.
pub open spec fn full_len_error(len: nat) -> Option<Blake2Error> {
    if len != 64 {
        Some(Blake2Error::ApiMisuse(BUF_LEN_INVALID))
    } else {
        None
    }
}

/// The error of a MAC key of `len` bytes, if any.
pub open spec fn key_len_error(len: nat) -> Option<Blake2Error> {
    range_error(len, 1, 64, KEY_LEN_TOO_SMALL, KEY_LEN_TOO_LARGE)
}

/// The error of a key derivation's lengths, checked in order: output,
/// base key, salt, personalisation.
pub open spec fn kdf_error(buf_len: nat, key_len: nat, salt_len: nat, info_len: nat) -> Option<
    Blake2Error,
> {
    first_error(
        buf_len_error(buf_len),
        first_error(
            range_error(key_len, 1, 64, BASE_KEY_LEN_TOO_SMALL, BASE_KEY_LEN_TOO_LARGE),
            first_error(
                range_error(salt_len, 0, 16, SALT_LEN_TOO_SMALL, SALT_LEN_TOO_LARGE),
                range_error(info_len, 0, 16, INFO_LEN_TOO_SMALL, INFO_LEN_TOO_LARGE),
            ),
        ),
    )
}

/// A fresh engine for a digest of `out_len` bytes keyed with `key`.
pub open spec fn started(s: B2Impl, out_len: nat, key: Seq<u8>) -> bool {
    &&& s.wf()
    &&& !s.is_finalized()
    &&& s.output_len() == out_len
    &&& s.initial_chain() == chain_init(param_block(out_len, key.len(), Seq::empty(), Seq::empty()))
    &&& s.absorbed() == key_block(key)
}

/// `after` is `before` with `data` absorbed.
pub open spec fn absorbed_more(before: B2Impl, after: B2Impl, data: Seq<u8>) -> bool {
    &&& after.wf()
    &&& !after.is_finalized()
    &&& after.output_len() == before.output_len()
    &&& after.initial_chain() == before.initial_chain()
    &&& after.absorbed() == before.absorbed() + data
}

/// Checks that `v` lies in `min..=max`.
fn check_in(v: usize, min: usize, max: usize, too_small: &'static str, too_large: &'static str) -> (r:
    Option<Blake2Error>)
    ensures
        r == range_error(v as nat, min as nat, max as nat, too_small, too_large),
{
    if v < min {
        Some(Blake2Error::ApiMisuse(too_small))
    } else if v > max {
        Some(Blake2Error::ApiMisuse(too_large))
    } else {
        None
    }
}

/// An implementation of [Blake2b](https://blake2.net/blake2.pdf)
pub struct Blake2b(Option<B2Impl>);

impl Blake2b {
    /// The running streaming state, if one was initialised.
    pub closed spec fn state(&self) -> Option<B2Impl> {
        self.0
    }

    /// A running state is well formed and still takes input.
    pub closed spec fn wf(&self) -> bool {
        self.0 matches Some(s) ==> s.wf() && !s.is_finalized()
    }

    /// Creates an instance with no streaming state.
    pub fn new() -> (r: Self)
        ensures
            r.wf(),
            r.state() is None,
    {
        Blake2b(None)
    }

    /// The digest length that `info` reports: that of the running state,
    /// else 64.
    pub fn selected_len(&self) -> (r: usize)
        requires
            self.wf(),
        ensures
            self.state() matches Some(s) ==> r == s.output_len(),
            self.state() is None ==> r == 64,
    {
        match &self.0 {
            Some(s) => s.hash_len(),
            None => 64,
        }
    }

    /// Checks the length of a key buffer of `buf_len` bytes that is to be
    /// filled with random bytes, and returns that length.
    pub fn new_sec_key_len(&self, buf_len: usize) -> (r: Result<usize, Blake2Error>)
        ensures
            buf_len_error(buf_len as nat) matches Some(e) ==> r == Err::<usize, Blake2Error>(e),
            buf_len_error(buf_len as nat) is None ==> r == Ok::<usize, Blake2Error>(buf_len),
    {
        match check_in(buf_len, 1, 64, BUF_LEN_TOO_SMALL, BUF_LEN_TOO_LARGE) {
            Some(e) => Err(e),
            None => Ok(buf_len),
        }
    }

    /// Hashes `data` into `buf`, which must be 64 bytes long
    pub fn hash(&self, buf: &mut [u8], data: &[u8]) -> (r: Result<usize, Blake2Error>)
        ensures
            full_len_error(old(buf)@.len()) matches Some(e) ==> r == Err::<usize, Blake2Error>(e)
                && final(buf)@ == old(buf)@,
            full_len_error(old(buf)@.len()) is None ==> r == Ok::<usize, Blake2Error>(64)
                && final(buf)@ == blake2b_hash(64, data@),
    {
        if buf.len() != 64 {
            return Err(Blake2Error::ApiMisuse(BUF_LEN_INVALID));
        }
        self.varlen_hash(buf, data)
    }

    /// Hashes `data` into `buf`, whose length (1 to 64) is the digest length
    pub fn varlen_hash(&self, buf: &mut [u8], data: &[u8]) -> (r: Result<usize, Blake2Error>)
        ensures
            buf_len_error(old(buf)@.len()) matches Some(e) ==> r == Err::<usize, Blake2Error>(e)
                && final(buf)@ == old(buf)@,
            buf_len_error(old(buf)@.len()) is None ==> r == Ok::<usize, Blake2Error>(
                old(buf)@.len() as usize,
            ) && final(buf)@ == blake2b_hash(old(buf)@.len(), data@),
    {
        if let Some(e) = check_in(buf.len(), 1, 64, BUF_LEN_TOO_SMALL, BUF_LEN_TOO_LARGE) {
            return Err(e);
        }
        let out_len = buf.len();
        let mut state = B2Impl::init(out_len);
        state.update(data);
        state.finish(buf);
        assert(key_block(Seq::empty()) + data@ =~= data@);
        Ok(out_len)
    }

    /// Authenticates `data` with `key` into `buf`, which must be 64 bytes long
    pub fn auth(&self, buf: &mut [u8], data: &[u8], key: &[u8]) -> (r: Result<usize, Blake2Error>)
        ensures
            first_error(full_len_error(old(buf)@.len()), key_len_error(key@.len())) matches Some(e)
                ==> r == Err::<usize, Blake2Error>(e) && final(buf)@ == old(buf)@,
            first_error(full_len_error(old(buf)@.len()), key_len_error(key@.len())) is None ==> r
                == Ok::<usize, Blake2Error>(64) && final(buf)@ == blake2b_mac(64, key@, data@),
    {
        if buf.len() != 64 {
            return Err(Blake2Error::ApiMisuse(BUF_LEN_INVALID));
        }
        self.varlen_auth(buf, data, key)
    }

    /// Authenticates `data` with `key` into `buf`, whose length (1 to 64) is
    /// the MAC length
    pub fn varlen_auth(&self, buf: &mut [u8], data: &[u8], key: &[u8]) -> (r: Result<
        usize,
        Blake2Error,
    >)
        ensures
            first_error(buf_len_error(old(buf)@.len()), key_len_error(key@.len())) matches Some(e)
                ==> r == Err::<usize, Blake2Error>(e) && final(buf)@ == old(buf)@,
            first_error(buf_len_error(old(buf)@.len()), key_len_error(key@.len())) is None ==> r
                == Ok::<usize, Blake2Error>(old(buf)@.len() as usize) && final(buf)@
                == blake2b_mac(old(buf)@.len(), key@, data@),
    {
        if let Some(e) = check_in(buf.len(), 1, 64, BUF_LEN_TOO_SMALL, BUF_LEN_TOO_LARGE) {
            return Err(e);
        }
        if let Some(e) = check_in(key.len(), 1, 64, KEY_LEN_TOO_SMALL, KEY_LEN_TOO_LARGE) {
            return Err(e);
        }
        let out_len = buf.len();
        let mut state = B2Impl::init_mac(out_len, key);
        state.update(data);
        state.finish(buf);
        Ok(out_len)
    }

    /// Fills `buf` with key bytes derived from `base_key` with `salt` and `info`
    pub fn derive(&self, buf: &mut [u8], base_key: &[u8], salt: &[u8], info: &[u8]) -> (r: Result<
        (),
        Blake2Error,
    >)
        ensures
            kdf_error(old(buf)@.len(), base_key@.len(), salt@.len(), info@.len()) matches Some(e)
                ==> r == Err::<(), Blake2Error>(e) && final(buf)@ == old(buf)@,
            kdf_error(old(buf)@.len(), base_key@.len(), salt@.len(), info@.len()) is None ==> r
                == Ok::<(), Blake2Error>(()) && final(buf)@ == blake2b_kdf(
                old(buf)@.len(),
                base_key@,
                salt@,
                info@,
            ),
    {
        if let Some(e) = check_in(buf.len(), 1, 64, BUF_LEN_TOO_SMALL, BUF_LEN_TOO_LARGE) {
            return Err(e);
        }
        if let Some(e) = check_in(
            base_key.len(),
            1,
            64,
            BASE_KEY_LEN_TOO_SMALL,
            BASE_KEY_LEN_TOO_LARGE,
        ) {
            return Err(e);
        }
        if let Some(e) = check_in(salt.len(), 0, 16, SALT_LEN_TOO_SMALL, SALT_LEN_TOO_LARGE) {
            return Err(e);
        }
        if let Some(e) = check_in(info.len(), 0, 16, INFO_LEN_TOO_SMALL, INFO_LEN_TOO_LARGE) {
            return Err(e);
        }
        let mut state = B2Impl::init_kdf(buf.len(), base_key, salt, info);
        state.finish(buf);
        assert(key_block(base_key@) + Seq::<u8>::empty() =~= key_block(base_key@));
        Ok(())
    }

    /// Adds `input` to the running state; `not_init` names the error when
    /// there is none.
    fn absorb(&mut self, input: &[u8], not_init: &'static str) -> (r: Result<(), Blake2Error>)
        requires
            old(self).wf(),
        ensures
            final(self).wf(),
            old(self).state() is None ==> r == Err::<(), Blake2Error>(
                Blake2Error::ApiMisuse(not_init),
            ) && final(self).state() is None,
            old(self).state() matches Some(s) ==> r == Ok::<(), Blake2Error>(()) && (final(self).state() matches Some(t) && absorbed_more(s, t, input@)),
    {
        match &mut self.0 {
            Some(s) => {
                s.update(input);
                Ok(())
            },
            None => Err(Blake2Error::ApiMisuse(not_init)),
        }
    }

    /// Takes the running state out and finalizes it into `buf`; `not_init`
    /// names the error when there is none.
    fn finish_state(&mut self, buf: &mut [u8], not_init: &'static str) -> (r: Result<
        usize,
        Blake2Error,
    >)
        requires
            old(self).wf(),
        ensures
            final(self).wf(),
            final(self).state() is None,
            old(self).state() is None ==> r == Err::<usize, Blake2Error>(
                Blake2Error::ApiMisuse(not_init),
            ) && final(buf)@ == old(buf)@,
            old(self).state() matches Some(s) ==> old(buf)@.len() != s.output_len() ==> r == Err::<
                usize,
                Blake2Error,
            >(Blake2Error::ApiMisuse(BUF_LEN_INVALID)) && final(buf)@ == old(buf)@,
            old(self).state() matches Some(s) ==> old(buf)@.len() == s.output_len() ==> r == Ok::<
                usize,
                Blake2Error,
            >(old(buf)@.len() as usize) && final(buf)@ == s.digest(),
    {
        match self.0.take() {
            None => Err(Blake2Error::ApiMisuse(not_init)),
            Some(mut state) => {
                if buf.len() != state.hash_len() {
                    return Err(Blake2Error::ApiMisuse(BUF_LEN_INVALID));
                }
                let out_len = buf.len();
                state.finish(buf);
                Ok(out_len)
            },
        }
    }

    /// (Re-)initializes the streaming hash for a 64-byte digest
    pub fn hash_init(&mut self) -> (r: Result<(), Blake2Error>)
        ensures
            r == Ok::<(), Blake2Error>(()),
            final(self).wf(),
            final(self).state() matches Some(s) && started(s, 64, Seq::empty()),
    {
        self.0 = Some(B2Impl::init(64));
        assert(key_block(Seq::empty()) =~= Seq::<u8>::empty());
        Ok(())
    }

    /// (Re-)initializes the streaming hash for a `hash_len`-byte digest
    pub fn hash_varlen_init(&mut self, hash_len: usize) -> (r: Result<(), Blake2Error>)
        requires
            old(self).wf(),
        ensures
            final(self).wf(),
            range_error(hash_len as nat, 1, 64, HASH_LEN_TOO_SMALL, HASH_LEN_TOO_LARGE) matches Some(
                e,
            ) ==> r == Err::<(), Blake2Error>(e) && final(self).state() == old(self).state(),
            range_error(hash_len as nat, 1, 64, HASH_LEN_TOO_SMALL, HASH_LEN_TOO_LARGE) is None ==> r
                == Ok::<(), Blake2Error>(()) && (final(self).state() matches Some(s) && started(
                s,
                hash_len as nat,
                Seq::empty(),
            )),
    {
        if let Some(e) = check_in(hash_len, 1, 64, HASH_LEN_TOO_SMALL, HASH_LEN_TOO_LARGE) {
            return Err(e);
        }
        self.0 = Some(B2Impl::init(hash_len));
        assert(key_block(Seq::empty()) =~= Seq::<u8>::empty());
        Ok(())
    }

    /// Adds `input` to the streaming hash
    pub fn hash_update(&mut self, input: &[u8]) -> (r: Result<(), Blake2Error>)
        requires
            old(self).wf(),
        ensures
            final(self).wf(),
            old(self).state() is None ==> r == Err::<(), Blake2Error>(
                Blake2Error::ApiMisuse(HASH_NOT_INITIALIZED),
            ) && final(self).state() is None,
            old(self).state() matches Some(s) ==> r == Ok::<(), Blake2Error>(()) && (final(self).state() matches Some(t) && absorbed_more(s, t, input@)),
    {
        self.absorb(input, HASH_NOT_INITIALIZED)
    }

    /// Computes the streaming hash into `buf`, which must have the digest
    /// length; the state is consumed either way
    pub fn hash_finish(&mut self, buf: &mut [u8]) -> (r: Result<usize, Blake2Error>)
        requires
            old(self).wf(),
        ensures
            final(self).wf(),
            final(self).state() is None,
            old(self).state() is None ==> r == Err::<usize, Blake2Error>(
                Blake2Error::ApiMisuse(HASH_NOT_INITIALIZED),
            ) && final(buf)@ == old(buf)@,
            old(self).state() matches Some(s) ==> old(buf)@.len() != s.output_len() ==> r == Err::<
                usize,
                Blake2Error,
            >(Blake2Error::ApiMisuse(BUF_LEN_INVALID)) && final(buf)@ == old(buf)@,
            old(self).state() matches Some(s) ==> old(buf)@.len() == s.output_len() ==> r == Ok::<
                usize,
                Blake2Error,
            >(old(buf)@.len() as usize) && final(buf)@ == s.digest(),
    {
        self.finish_state(buf, HASH_NOT_INITIALIZED)
    }

    /// (Re-)initializes the streaming MAC with `key` for a 64-byte MAC
    pub fn mac_init(&mut self, key: &[u8]) -> (r: Result<(), Blake2Error>)
        requires
            old(self).wf(),
        ensures
            final(self).wf(),
            key_len_error(key@.len()) matches Some(e) ==> r == Err::<(), Blake2Error>(e) && final(self).state() == old(self).state(),
            key_len_error(key@.len()) is None ==> r == Ok::<(), Blake2Error>(()) && (final(self).state() matches Some(s) && started(s, 64, key@)),
    {
        if let Some(e) = check_in(key.len(), 1, 64, KEY_LEN_TOO_SMALL, KEY_LEN_TOO_LARGE) {
            return Err(e);
        }
        self.0 = Some(B2Impl::init_mac(64, key));
        Ok(())
    }

    /// (Re-)initializes the streaming MAC with `key` for a `mac_len`-byte MAC
    pub fn mac_varlen_init(&mut self, mac_len: usize, key: &[u8]) -> (r: Result<(), Blake2Error>)
        requires
            old(self).wf(),
        ensures
            final(self).wf(),
            first_error(
                range_error(mac_len as nat, 1, 64, MAC_LEN_TOO_SMALL, MAC_LEN_TOO_LARGE),
                key_len_error(key@.len()),
            ) matches Some(e) ==> r == Err::<(), Blake2Error>(e) && final(self).state() == old(self).state(),
            first_error(
                range_error(mac_len as nat, 1, 64, MAC_LEN_TOO_SMALL, MAC_LEN_TOO_LARGE),
                key_len_error(key@.len()),
            ) is None ==> r == Ok::<(), Blake2Error>(()) && (final(self).state() matches Some(s)
                && started(s, mac_len as nat, key@)),
    {
        if let Some(e) = check_in(mac_len, 1, 64, MAC_LEN_TOO_SMALL, MAC_LEN_TOO_LARGE) {
            return Err(e);
        }
        if let Some(e) = check_in(key.len(), 1, 64, KEY_LEN_TOO_SMALL, KEY_LEN_TOO_LARGE) {
            return Err(e);
        }
        self.0 = Some(B2Impl::init_mac(mac_len, key));
        Ok(())
    }

    /// Adds `data` to the streaming MAC
    pub fn mac_update(&mut self, data: &[u8]) -> (r: Result<(), Blake2Error>)
        requires
            old(self).wf(),
        ensures
            final(self).wf(),
            old(self).state() is None ==> r == Err::<(), Blake2Error>(
                Blake2Error::ApiMisuse(MAC_NOT_INITIALIZED),
            ) && final(self).state() is None,
            old(self).state() matches Some(s) ==> r == Ok::<(), Blake2Error>(()) && (final(self).state() matches Some(t) && absorbed_more(s, t, data@)),
    {
        self.absorb(data, MAC_NOT_INITIALIZED)
    }

    /// Computes the streaming MAC into `buf`, which must have the MAC length;
    /// the state is consumed either way
    pub fn mac_finish(&mut self, buf: &mut [u8]) -> (r: Result<usize, Blake2Error>)
        requires
            old(self).wf(),
        ensures
            final(self).wf(),
            final(self).state() is None,
            old(self).state() is None ==> r == Err::<usize, Blake2Error>(
                Blake2Error::ApiMisuse(MAC_NOT_INITIALIZED),
            ) && final(buf)@ == old(buf)@,
            old(self).state() matches Some(s) ==> old(buf)@.len() != s.output_len() ==> r == Err::<
                usize,
                Blake2Error,
            >(Blake2Error::ApiMisuse(BUF_LEN_INVALID)) && final(buf)@ == old(buf)@,
            old(self).state() matches Some(s) ==> old(buf)@.len() == s.output_len() ==> r == Ok::<
                usize,
                Blake2Error,
            >(old(buf)@.len() as usize) && final(buf)@ == s.digest(),
    {
        self.finish_state(buf, MAC_NOT_INITIALIZED)
    }
}

} // verus!
