//! The image checksum: an MD5 digest of every byte transmitted, compared
//! as lowercase hex text with the one the device computes.
use vstd::prelude::*;
use crate::error::EspLoaderError;

verus! {

/// The MD5 digest of `data`.
pub uninterp spec fn md5_of(data: Seq<u8>) -> Seq<u8>;

/// Relies on md5::compute: the 16-byte MD5 digest of the bytes, which
/// depends on the bytes alone.
#[verifier::external_body]
fn md5_digest(data: &[u8]) -> (r: [u8; 16])
    ensures
        r@ == md5_of(data@),
{
    md5::compute(data).0
}

/// The digest of everything accumulated for a session.
pub fn md5_final(checksum_input: &Vec<u8>) -> (r: [u8; 16])
    ensures
        r@ == md5_of(checksum_input@),
{
    md5_digest(checksum_input.as_slice())
}

/// The lowercase hex digit of `n` (below 16).
pub open spec fn hex_digit(n: u8) -> u8 {
    if n < 10 {
        (0x30 + n) as u8
    } else {
        (0x61 + n - 10) as u8
    }
}

/// Two lowercase hex digits per byte, high nibble first.
pub open spec fn hex_spec(raw: Seq<u8>) -> Seq<u8> {
    Seq::new(
        2 * raw.len(),
        |i: int|
            if i % 2 == 0 {
                hex_digit(raw[i / 2] / 16)
            } else {
                hex_digit(raw[i / 2] % 16)
            },
    )
}

fn hex_char(n: u8) -> (r: u8)
    requires
        n < 16,
    ensures
        r == hex_digit(n),
{
    if n < 10 {
        0x30 + n
    } else {
        0x61 + n - 10
    }
}

/// The digest as 32 lowercase hex digits.
pub fn hexify(raw_md5: &[u8; 16]) -> (r: Vec<u8>)
    ensures
        r@ == hex_spec(raw_md5@),
{
    let mut hex_md5: Vec<u8> = Vec::new();
    let mut i: usize = 0;
    while i < 16
        invariant
            i <= 16,
            raw_md5@.len() == 16,
            hex_md5@ == hex_spec(raw_md5@.take(i as int)),
        decreases 16 - i,
    {
        let elem = raw_md5[i];
        let high_nibble = elem / 16;
        let low_nibble = elem % 16;
        hex_md5.push(hex_char(high_nibble));
        hex_md5.push(hex_char(low_nibble));
        proof {
            let a = raw_md5@.take(i as int);
            let b = raw_md5@.take(i + 1);
            assert forall|j: int| 0 <= j < 2 * i implies #[trigger] hex_spec(b)[j] == hex_spec(a)[j] by {
                assert(b[j / 2] == a[j / 2]);
            }
            assert(hex_md5@ =~= hex_spec(b));
        }
        i += 1;
    }
    proof {
        assert(raw_md5@.take(16) =~= raw_md5@);
    }
    hex_md5
}

/// Whether the device's hex text `received` names `digest`.
pub open spec fn digest_check(received: Seq<u8>, digest: Seq<u8>) -> Result<(), EspLoaderError> {
    if received == hex_spec(digest) {
        Ok(())
    } else {
        Err(EspLoaderError::ChecksumMismatch)
    }
}

/// Compares the device's hex text with the hex form of a local digest.
pub fn verify_digest(received: &[u8], digest: &[u8; 16]) -> (r: Result<(), EspLoaderError>)
    ensures
        r == digest_check(received@, digest@),
{
    let computed = hexify(digest);
    if computed.len() != received.len() {
        return Err(EspLoaderError::ChecksumMismatch);
    }
    let mut i: usize = 0;
    while i < computed.len()
        invariant
            i <= computed@.len(),
            computed@.len() == received@.len(),
            computed@ == hex_spec(digest@),
            forall|j: int| 0 <= j < i ==> computed@[j] == received@[j],
        decreases computed@.len() - i,
    {
        if computed[i] != received[i] {
            return Err(EspLoaderError::ChecksumMismatch);
        }
        i += 1;
    }
    proof {
        assert(computed@ =~= received@);
    }
    Ok(())
}

} // verus!
