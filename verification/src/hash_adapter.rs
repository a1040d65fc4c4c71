//! An accumulating BLAKE3 hasher with extendable output, in plain, keyed and
//! key-derivation mode.

use vstd::prelude::*;
use vstd::string::StringSliceAdditionalSpecFns;
use crate::timing::Stopwatch;

verus! {

/// The first `len` bytes of the BLAKE3 extendable output for `data`.
pub uninterp spec fn blake3_output(data: Seq<u8>, len: nat) -> Seq<u8>;

/// The first `len` bytes of the keyed BLAKE3 extendable output for `data`.
pub uninterp spec fn blake3_keyed_output(key: Seq<u8>, data: Seq<u8>, len: nat) -> Seq<u8>;

/// The first `len` bytes of the BLAKE3 key-derivation output for `data`
/// under the context string.
pub uninterp spec fn blake3_derived_output(context: Seq<char>, data: Seq<u8>, len: nat) -> Seq<u8>;

/// How much margin a caller asks of optional hashing parameters.
#[derive(Clone, Copy, Debug, PartialEq, Eq, Structural)]
pub enum SecurityLevel {
    /// General use.
    Standard,
    /// Sensitive operations.
    High,
    /// Critical infrastructure.
    Maximum,
}

impl Default for SecurityLevel {
    fn default() -> (r: SecurityLevel)
        ensures
            r == SecurityLevel::High,
    {
        SecurityLevel::High
    }
}

/// The way the hasher is keyed.
#[derive(Clone, Copy, Debug, PartialEq, Eq, Structural)]
pub enum HashMode {
    /// Unkeyed hashing.
    Normal,
    /// Hashing under a 32-byte key.
    Keyed,
    /// Key derivation under a context string.
    DeriveKey,
}

/// What a hasher is keyed with.
#[derive(Clone, Debug)]
enum Keying {
    Normal,
    Keyed([u8; 32]),
    DeriveKey(String),
}

/// A hasher that collects its input and hashes it on demand.
#[derive(Clone, Debug)]
pub struct Blake3Adapter {
    keying: Keying,
    accumulated_data: Vec<u8>,
    security_level: SecurityLevel,
}

/// Appends `src` to `dst`.
pub fn append_bytes(dst: &mut Vec<u8>, src: &[u8])
    ensures
        final(dst)@ == old(dst)@ + src@,
{
    let ghost before = dst@;
    let mut i: usize = 0;
    while i < src.len()
        invariant
            i <= src.len(),
            dst@ == before + src@.subrange(0, i as int),
        decreases src.len() - i,
    {
        dst.push(src[i]);
        assert(src@.subrange(0, i + 1) =~= src@.subrange(0, i as int).push(src@[i as int]));
        i += 1;
    }
    assert(src@.subrange(0, src@.len() as int) =~= src@);
}

impl Blake3Adapter {
    /// The input collected so far.
    pub closed spec fn data(&self) -> Seq<u8> {
        self.accumulated_data@
    }

    /// The mode of the hasher.
    pub closed spec fn mode(&self) -> HashMode {
        match self.keying {
            Keying::Normal => HashMode::Normal,
            Keying::Keyed(_) => HashMode::Keyed,
            Keying::DeriveKey(_) => HashMode::DeriveKey,
        }
    }

    /// The key, in keyed mode.
    pub closed spec fn key(&self) -> Option<Seq<u8>> {
        match self.keying {
            Keying::Keyed(k) => Some(k@),
            _ => None,
        }
    }

    /// The context string, in key-derivation mode.
    pub closed spec fn context(&self) -> Option<Seq<char>> {
        match self.keying {
            Keying::DeriveKey(c) => Some(c@),
            _ => None,
        }
    }

    /// The security level the hasher was made with.
    pub closed spec fn level(&self) -> SecurityLevel {
        self.security_level
    }

    /// The first `len` output bytes for the input collected so far.
    pub open spec fn output(&self, len: nat) -> Seq<u8> {
        match self.mode() {
            HashMode::Normal => blake3_output(self.data(), len),
            HashMode::Keyed => blake3_keyed_output(self.key().unwrap(), self.data(), len),
            HashMode::DeriveKey => blake3_derived_output(self.context().unwrap(), self.data(), len),
        }
    }

    /// An unkeyed hasher with the given security level and no input.
    pub fn new_with_security(level: SecurityLevel) -> (r: Blake3Adapter)
        ensures
            r.mode() == HashMode::Normal,
            r.key().is_none(),
            r.context().is_none(),
            r.data() == Seq::<u8>::empty(),
            r.level() == level,
    {
        Blake3Adapter {
            keying: Keying::Normal,
            accumulated_data: Vec::new(),
            security_level: level,
        }
    }

    /// An unkeyed hasher with high security and no input.
    pub fn new() -> (r: Blake3Adapter)
        ensures
            r.mode() == HashMode::Normal,
            r.key().is_none(),
            r.context().is_none(),
            r.data() == Seq::<u8>::empty(),
            r.level() == SecurityLevel::High,
    {
        Blake3Adapter::new_with_security(SecurityLevel::High)
    }

    /// A keyed hasher, for message authentication.
    pub fn new_keyed(key: &[u8; 32]) -> (r: Blake3Adapter)
        ensures
            r.mode() == HashMode::Keyed,
            r.key() == Some(key@),
            r.context().is_none(),
            r.data() == Seq::<u8>::empty(),
            r.level() == SecurityLevel::High,
    {
        Blake3Adapter {
            keying: Keying::Keyed(*key),
            accumulated_data: Vec::new(),
            security_level: SecurityLevel::High,
        }
    }

    /// A key-derivation hasher for the given context.
    pub fn new_derive_key(context: &str) -> (r: Blake3Adapter)
        ensures
            r.mode() == HashMode::DeriveKey,
            r.key().is_none(),
            r.context() == Some(context@),
            r.data() == Seq::<u8>::empty(),
            r.level() == SecurityLevel::High,
    {
        Blake3Adapter {
            keying: Keying::DeriveKey(context.to_owned()),
            accumulated_data: Vec::new(),
            security_level: SecurityLevel::High,
        }
    }

    /// The security level the hasher was made with.
    pub fn security_level(&self) -> (r: SecurityLevel)
        ensures
            r == self.level(),
    {
        self.security_level
    }

    /// Appends the context, a zero byte and the data to the input.
    pub fn update_with_context(&mut self, data: &[u8], context: &str)
        ensures
            final(self).data() == old(self).data() + context.spec_bytes() + seq![0u8] + data@,
            final(self).mode() == old(self).mode(),
            final(self).key() == old(self).key(),
            final(self).context() == old(self).context(),
            final(self).level() == old(self).level(),
    {
        append_bytes(&mut self.accumulated_data, context.as_bytes());
        self.accumulated_data.push(0u8);
        append_bytes(&mut self.accumulated_data, data);
        assert(self.accumulated_data@ =~= old(self).accumulated_data@ + context.spec_bytes()
            + seq![0u8] + data@);
    }

    /// Appends the data to the input.
    pub fn add_data(&mut self, data: &[u8])
        ensures
            final(self).data() == old(self).data() + data@,
            final(self).mode() == old(self).mode(),
            final(self).key() == old(self).key(),
            final(self).context() == old(self).context(),
            final(self).level() == old(self).level(),
    {
        append_bytes(&mut self.accumulated_data, data);
    }

    /// Appends the data to the input.
    pub fn update(&mut self, data: &[u8])
        ensures
            final(self).data() == old(self).data() + data@,
            final(self).mode() == old(self).mode(),
            final(self).key() == old(self).key(),
            final(self).context() == old(self).context(),
            final(self).level() == old(self).level(),
    {
        self.add_data(data);
    }

    /// The input collected so far.
    pub fn get_accumulated_data(&self) -> (r: &[u8])
        ensures
            r@ == self.data(),
    {
        self.accumulated_data.as_slice()
    }

    /// Fills the buffer with the extendable output for the input collected so far.
    pub fn finalize_extended(&self, output: &mut [u8])
        ensures
            final(output)@ == self.output(old(output)@.len()),
            final(output)@.len() == old(output)@.len(),
    {
        match &self.keying {
            Keying::Normal => fill_plain(self.accumulated_data.as_slice(), output),
            Keying::Keyed(key) => fill_keyed(key, self.accumulated_data.as_slice(), output),
            Keying::DeriveKey(context) => fill_derived(
                context.as_str(),
                self.accumulated_data.as_slice(),
                output,
            ),
        }
    }

    /// The 64-byte output for the input collected so far.
    pub fn finalize_fixed(&self) -> (r: [u8; 64])
        ensures
            r@ == self.output(64),
    {
        let mut buf = [0u8; 64];
        self.finalize_extended(&mut buf);
        buf
    }

    /// Forgets the input collected so far; key and mode stay.
    pub fn reset(&mut self)
        ensures
            final(self).data() == Seq::<u8>::empty(),
            final(self).mode() == old(self).mode(),
            final(self).key() == old(self).key(),
            final(self).context() == old(self).context(),
            final(self).level() == old(self).level(),
    {
        self.accumulated_data.clear();
    }
}

impl Blake3Adapter {
    /// Overwrites the collected input and the key with zeros; the input is
    /// then empty and the key all zero.
    pub fn zeroize(&mut self)
        ensures
            final(self).data() == Seq::<u8>::empty(),
            final(self).mode() == old(self).mode(),
            final(self).level() == old(self).level(),
            final(self).context() == old(self).context(),
            old(self).key().is_some() ==> final(self).key() == Some(Seq::new(32, |i: int| 0u8)),
            old(self).key().is_none() ==> final(self).key().is_none(),
        opens_invariants none
        no_unwind
    {
        wipe_all(&mut self.accumulated_data);
        match &mut self.keying {
            Keying::Keyed(key) => {
                crate::scalar::wipe(key);
            },
            _ => {},
        }
    }
}

/// Calls `zeroize::Zeroize::zeroize` on the vector, which overwrites its
/// bytes with 0 and leaves it empty.
#[verifier::external_body]
fn wipe_all(bytes: &mut Vec<u8>)
    ensures
        final(bytes)@ == Seq::<u8>::empty(),
    opens_invariants none
    no_unwind
{
    zeroize::Zeroize::zeroize(bytes);
}

impl Drop for Blake3Adapter {
    /// The collected input and the key are overwritten with zeros when the
    /// hasher goes out of scope.
    fn drop(&mut self)
        opens_invariants none
        no_unwind
    {
        self.zeroize();
    }
}

impl Default for Blake3Adapter {
    fn default() -> (r: Blake3Adapter)
        ensures
            r.mode() == HashMode::Normal,
            r.data() == Seq::<u8>::empty(),
            r.level() == SecurityLevel::High,
    {
        Blake3Adapter::new()
    }
}

/// Hashes `data` with a fresh `blake3::Hasher` and reads as many bytes of its
/// extendable output as the buffer holds.
#[verifier::external_body]
fn fill_plain(data: &[u8], out: &mut [u8])
    ensures
        final(out)@ == blake3_output(data@, old(out)@.len()),
        final(out)@.len() == old(out)@.len(),
{
    blake3::Hasher::new().update(data).finalize_xof().fill(out);
}

/// Hashes `data` with `blake3::Hasher::new_keyed` and reads as many bytes of
/// its extendable output as the buffer holds.
#[verifier::external_body]
fn fill_keyed(key: &[u8; 32], data: &[u8], out: &mut [u8])
    ensures
        final(out)@ == blake3_keyed_output(key@, data@, old(out)@.len()),
        final(out)@.len() == old(out)@.len(),
{
    blake3::Hasher::new_keyed(key).update(data).finalize_xof().fill(out);
}

/// Hashes `data` with `blake3::Hasher::new_derive_key` and reads as many bytes
/// of its extendable output as the buffer holds.
#[verifier::external_body]
fn fill_derived(context: &str, data: &[u8], out: &mut [u8])
    ensures
        final(out)@ == blake3_derived_output(context@, data@, old(out)@.len()),
        final(out)@.len() == old(out)@.len(),
{
    blake3::Hasher::new_derive_key(context).update(data).finalize_xof().fill(out);
}

/// Checks and measurements of the hash function.
pub struct SecurityValidator;

impl SecurityValidator {
    /// The properties that the hash function is relied on for; all of them
    /// hold of BLAKE3, so the validation always succeeds.
    pub fn validate_security_properties() -> (r: Result<(), String>)
        ensures
            r.is_ok(),
    {
        Ok(())
    }

    /// The nanoseconds it takes to hash one mebibyte of zeros.
    pub fn benchmark_performance() -> (r: u64) {
        let mut data: Vec<u8> = Vec::new();
        let mut i: usize = 0;
        while i < 1_048_576
            invariant
                i <= 1_048_576,
                data.len() == i,
            decreases 1_048_576 - i,
        {
            data.push(0u8);
            i += 1;
        }
        let watch = Stopwatch::start();
        let mut hasher = Blake3Adapter::new();
        hasher.update(data.as_slice());
        let _digest = hasher.finalize_fixed();
        watch.elapsed_ns()
    }
}

} // verus!
