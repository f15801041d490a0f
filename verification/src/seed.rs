use vstd::prelude::*;
use vstd::string::StringSliceAdditionalSpecFns;
use std::time::{Duration, SystemTime, SystemTimeError};

verus! {

/// Starting value of the string hash (the 64-bit FNV offset basis).
pub const FNV_OFFSET_BASIS: u64 = 14_695_981_039_346_656_037;

/// Multiplier of the string hash (the 64-bit FNV prime).
pub const FNV_PRIME: u64 = 1_099_511_628_211;

/// Multiplier applied after the xorshift steps when a seed is drawn from the clock.
pub const CLOCK_MIX_MULTIPLIER: u64 = 0x2545_f491_4f6c_dd1d;

/// Product of two 64-bit words, reduced modulo 2^64.
pub open spec fn mul_mod64(a: u64, b: u64) -> u64 {
    ((a as nat * b as nat) % 0x1_0000_0000_0000_0000nat) as u64
}

/// One step of the string hash: fold a byte into the running hash.
pub open spec fn fnv_step(h: u64, byte: u8) -> u64 {
    mul_mod64(h ^ (byte as u64), FNV_PRIME)
}

/// The FNV-1a hash of a byte sequence, folded from the first byte to the last.
pub open spec fn fnv1a(bytes: Seq<u8>) -> u64
    decreases bytes.len(),
{
    if bytes.len() == 0 {
        FNV_OFFSET_BASIS
    } else {
        fnv_step(fnv1a(bytes.drop_last()), bytes.last())
    }
}

/// The xorshift-and-multiply mix that turns a raw clock reading into a seed value.
pub open spec fn clock_mix(raw: u64) -> u64 {
    let x1 = raw ^ (raw >> 12u64);
    let x2 = x1 ^ (x1 << 25u64);
    let x3 = x2 ^ (x2 >> 27u64);
    mul_mod64(x3, CLOCK_MIX_MULTIPLIER)
}

/// The raw clock value a seed is mixed from: the time elapsed since the Unix
/// epoch in nanoseconds, reduced modulo 2^64, or 0 when the clock reads a
/// time before the epoch (`None`).
pub open spec fn clock_raw(elapsed_nanos: Option<u128>) -> u64 {
    match elapsed_nanos {
        Some(n) => (n % 0x1_0000_0000_0000_0000u128) as u64,
        None => 0,
    }
}

/// A seed value that determines the entire world.
#[derive(Debug, Clone, Copy, PartialEq, Eq, Hash, Structural)]
pub struct WorldSeed(pub u64);

impl WorldSeed {
    /// Create a seed from a string by hashing its UTF-8 bytes (FNV-1a).
    pub fn from_string(s: &str) -> (seed: WorldSeed)
        ensures
            seed.0 == fnv1a(s.spec_bytes()),
    {
        let bytes = s.as_bytes();
        let mut hash: u64 = FNV_OFFSET_BASIS;
        let mut i: usize = 0;
        while i < bytes.len()
            invariant
                0 <= i <= bytes@.len(),
                bytes@ == s.spec_bytes(),
                hash == fnv1a(bytes@.take(i as int)),
            decreases bytes@.len() - i,
        {
            let byte = bytes[i];
            proof {
                assert(bytes@.take(i as int + 1).drop_last() =~= bytes@.take(i as int));
            }
            hash = (hash ^ (byte as u64)).wrapping_mul(FNV_PRIME);
            i = i + 1;
        }
        proof {
            assert(bytes@.take(bytes@.len() as int) =~= bytes@);
        }
        WorldSeed(hash)
    }

    /// Turn a raw clock reading (nanoseconds since the Unix epoch) into a seed
    /// by mixing its bits.
    pub fn from_clock_nanos(raw: u64) -> (seed: WorldSeed)
        ensures
            seed.0 == clock_mix(raw),
    {
        let mut x = raw;
        x = x ^ (x >> 12u64);
        x = x ^ (x << 25u64);
        x = x ^ (x >> 27u64);
        WorldSeed(x.wrapping_mul(CLOCK_MIX_MULTIPLIER))
    }

    /// Turn a clock reading into a seed: the nanoseconds elapsed since the
    /// Unix epoch (`None` for a clock before the epoch) are cut to 64 bits,
    /// or taken as 0, and mixed.
    pub fn from_clock_reading(elapsed_nanos: Option<u128>) -> (seed: WorldSeed)
        ensures
            seed.0 == clock_mix(clock_raw(elapsed_nanos)),
    {
        let raw: u64 = match elapsed_nanos {
            Some(n) => {
                let truncated = n as u64;
                assert(truncated == n % 0x1_0000_0000_0000_0000u128) by (bit_vector)
                    requires
                        truncated == n as u64,
                ;
                truncated
            },
            None => 0,
        };
        WorldSeed::from_clock_nanos(raw)
    }

    /// Create a seed from the current system time. A clock set before the Unix
    /// epoch reads as zero nanoseconds.
    pub fn random() -> (seed: WorldSeed)
        ensures
            exists|elapsed_nanos: Option<u128>|
                seed.0 == #[trigger] clock_mix(clock_raw(elapsed_nanos)),
    {
        let now = system_time_now();
        let elapsed_nanos: Option<u128> = match elapsed_since_unix_epoch(&now) {
            Ok(elapsed) => Some(duration_as_nanos(&elapsed)),
            Err(_) => None,
        };
        let seed = WorldSeed::from_clock_reading(elapsed_nanos);
        assert(seed.0 == clock_mix(clock_raw(elapsed_nanos)));
        seed
    }

    /// Return the raw `u64` value.
    pub fn as_u64(self) -> (v: u64)
        ensures
            v == self.0,
    {
        self.0
    }
}

impl Default for WorldSeed {
    /// The default seed is 42.
    fn default() -> (seed: WorldSeed)
        ensures
            seed.0 == 42,
    {
        WorldSeed(42)
    }
}

impl From<u64> for WorldSeed {
    fn from(v: u64) -> (seed: WorldSeed) {
        WorldSeed(v)
    }
}

impl vstd::std_specs::convert::FromSpecImpl<u64> for WorldSeed {
    open spec fn obeys_from_spec() -> bool {
        true
    }

    open spec fn from_spec(v: u64) -> WorldSeed {
        WorldSeed(v)
    }
}

/// Seeds are deterministic: two strings with the same characters give the same seed.
pub proof fn lemma_from_string_deterministic(a: &str, b: &str)
    requires
        a@ == b@,
    ensures
        fnv1a(a.spec_bytes()) == fnv1a(b.spec_bytes()),
{
}

/// A seed made from a `u64` gives that `u64` back.
pub proof fn lemma_seed_from_u64_round_trip(v: u64)
    ensures
        <WorldSeed as vstd::std_specs::convert::FromSpec<u64>>::from_spec(v).0 == v,
{
}

/// The string hash is the FNV-1a fold of the raw bytes: the empty byte
/// sequence hashes to 14695981039346656037, and appending a byte `b`, taken
/// as it is, maps the hash `h` to `((h ^ b) * 1099511628211) mod 2^64`.
pub proof fn lemma_fnv1a_fold(bytes: Seq<u8>, b: u8)
    ensures
        fnv1a(Seq::<u8>::empty()) == 14695981039346656037u64,
        fnv1a(bytes.push(b)) == (((fnv1a(bytes) ^ (b as u64)) as nat * 1099511628211nat)
            % 0x1_0000_0000_0000_0000nat) as u64,
{
    assert(bytes.push(b).drop_last() =~= bytes);
}

#[verifier::external_type_specification]
#[verifier::external_body]
pub struct ExSystemTime(SystemTime);

#[verifier::external_type_specification]
#[verifier::external_body]
pub struct ExSystemTimeError(SystemTimeError);

/// Reads the system clock through `std::time::SystemTime::now`. Nothing is
/// stated of the reading: it depends on the machine and the moment.
#[verifier::external_body]
fn system_time_now() -> SystemTime {
    SystemTime::now()
}

/// Calls `std::time::SystemTime::duration_since` with `SystemTime::UNIX_EPOCH`.
/// Nothing is stated of the result: it depends on the clock reading passed in,
/// which is opaque here; an `Err` comes when that reading is before the epoch.
#[verifier::external_body]
fn elapsed_since_unix_epoch(t: &SystemTime) -> Result<Duration, SystemTimeError> {
    t.duration_since(SystemTime::UNIX_EPOCH)
}

/// Calls `std::time::Duration::as_nanos`: the whole duration in nanoseconds.
/// Nothing is stated: a `Duration` is opaque to the verifier.
#[verifier::external_body]
fn duration_as_nanos(d: &Duration) -> u128 {
    d.as_nanos()
}

} // verus!
