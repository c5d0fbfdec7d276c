//! Content fingerprinting for synthesis artifacts.
//!
//! An utterance's fingerprint is the 64-bit FNV-1a hash of its UTF-8 bytes:
//! fast, deterministic across restarts, and collision-tolerant by design —
//! an accidental collision only replays another utterance's cached audio.
//! The fingerprint also names the artifact file, as sixteen lower-case hex
//! digits, so the artifact path is content-addressed.
use vstd::prelude::*;
use vstd::utf8::encode_utf8;

verus! {

pub const FNV_OFFSET_BASIS: u64 = 0xcbf29ce484222325;

pub const FNV_PRIME: u64 = 0x100000001b3;

/// 64-bit FNV-1a over a byte sequence: start from the offset basis and, for
/// each byte, exclusive-or it in and multiply by the FNV prime modulo 2^64.
pub open spec fn fnv1a(bytes: Seq<u8>) -> u64
    decreases bytes.len(),
{
    if bytes.len() == 0 {
        FNV_OFFSET_BASIS
    } else {
        vstd::wrapping::u64_specs::wrapping_mul(
            fnv1a(bytes.drop_last()) ^ (bytes.last() as u64),
            FNV_PRIME,
        )
    }
}

/// Fingerprint of an utterance: FNV-1a over its UTF-8 encoding.
pub open spec fn spec_fingerprint(text: Seq<char>) -> u64 {
    fnv1a(encode_utf8(text))
}

/// 64-bit FNV-1a of a byte slice.
pub fn fnv1a_64(bytes: &[u8]) -> (r: u64)
    ensures
        r == fnv1a(bytes@),
{
    let n = bytes.len();
    let mut h: u64 = FNV_OFFSET_BASIS;
    let mut i: usize = 0;
    while i < n
        invariant
            i <= n,
            n == bytes@.len(),
            h == fnv1a(bytes@.subrange(0, i as int)),
        decreases n - i,
    {
        let b = bytes[i];
        h = (h ^ (b as u64)).wrapping_mul(FNV_PRIME);
        i = i + 1;
        proof {
            let cur = bytes@.subrange(0, i as int);
            assert(cur.drop_last() =~= bytes@.subrange(0, i - 1));
            assert(cur.last() == bytes@[i - 1]);
        }
    }
    proof {
        assert(bytes@.subrange(0, n as int) =~= bytes@);
    }
    h
}

/// Fingerprint of an utterance's text.
pub fn fingerprint_of(text: &str) -> (r: u64)
    ensures
        r == spec_fingerprint(text@),
{
    fnv1a_64(text.as_bytes())
}

/// Lower-case hex digit for a value below sixteen.
pub open spec fn hex_digit(v: u64) -> u8
    recommends
        v < 16,
{
    if v < 10 {
        (48 + v) as u8
    } else {
        (87 + v) as u8
    }
}

/// The sixteen-hex-digit name of an artifact, most significant nibble first.
pub open spec fn spec_artifact_name(fp: u64) -> Seq<u8> {
    Seq::new(16, |i: int| hex_digit((fp >> (((15 - i) * 4) as u64)) & 0xf))
}

/// Content-addressed artifact file name for a fingerprint: sixteen
/// lower-case hex digits, as bytes.
pub fn artifact_name(fp: u64) -> (r: Vec<u8>)
    ensures
        r@ == spec_artifact_name(fp),
{
    let mut r: Vec<u8> = Vec::new();
    let mut i: usize = 0;
    while i < 16
        invariant
            i <= 16,
            r@.len() == i,
            forall|k: int| 0 <= k < i ==> r@[k] == spec_artifact_name(fp)[k],
        decreases 16 - i,
    {
        let shift: u64 = ((15 - i) as u64) * 4;
        let v: u64 = (fp >> shift) & 0xf;
        assert(v < 16) by (bit_vector)
            requires
                v == (fp >> shift) & 0xf,
        ;
        let d: u8 = if v < 10 {
            48 + (v as u8)
        } else {
            87 + (v as u8)
        };
        r.push(d);
        i = i + 1;
        proof {
            assert(shift == ((15 - (i - 1)) * 4) as u64);
            assert(r@[i - 1] == spec_artifact_name(fp)[i - 1]);
        }
    }
    proof {
        assert(r@ =~= spec_artifact_name(fp));
    }
    r
}

} // verus!
