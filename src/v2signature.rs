//! The first certificate of a signature-scheme V2 signer.
use vstd::prelude::*;

use crate::bytes::{copy_range, le_at, read_le};

verus! {

/// The first certificate held in the V2 signer payload `s`. The payload is a run of
/// 4-byte little-endian lengths: signer sequence, signer, signed data, digests
/// (whose bytes are skipped), certificates; the first certificate follows its own
/// 4-byte length, and is `certificates - 4` bytes long.
pub open spec fn v2_certificate(s: Seq<u8>) -> Option<Seq<u8>> {
    if s.len() < 8 || s.len() < 8 + le_at(s, 4, 4) || s.len() < 16 {
        None
    } else {
        let at = 16 + le_at(s, 12, 4) as int;
        if s.len() < at + 4 {
            None
        } else {
            let c = le_at(s, at, 4) as int;
            if c < 4 || s.len() < at + 4 + c {
                None
            } else {
                Some(s.subrange(at + 8, at + 4 + c))
            }
        }
    }
}

/// Extracts the first certificate from a V2 signer payload; `None` where the
/// payload is too short for what its lengths declare.
pub fn get_v2signature(data: &[u8]) -> (r: Option<Vec<u8>>)
    ensures
        match r {
            Some(c) => v2_certificate(data@) == Some(c@),
            None => v2_certificate(data@) is None,
        },
{
    let n = data.len();
    if n < 8 {
        return None;
    }
    let signer_size = read_le(data, 4, 4);
    proof {
        crate::bytes::lemma_le_value_bound(data@.subrange(4, 8));
        crate::bytes::lemma_le_value_bound(data@.subrange(12, 16));
        reveal_with_fuel(crate::bytes::pow256, 5);
    }
    if (n as u64) < 8 + signer_size || n < 16 {
        return None;
    }
    let digests_size = read_le(data, 12, 4);
    let at = 16 + digests_size;
    if (n as u64) < at + 4 {
        return None;
    }
    let at = at as usize;
    let certificates_size = read_le(data, at, 4);
    proof {
        crate::bytes::lemma_le_value_bound(data@.subrange(at as int, at + 4));
    }
    if certificates_size < 4 || ((n - at - 4) as u64) < certificates_size {
        return None;
    }
    Some(copy_range(data, at + 8, at + 4 + certificates_size as usize))
}

/// A payload that ends before the end of its certificates-sequence length field
/// holds no certificate, whatever its bytes.
pub proof fn lemma_truncated_payload_has_no_certificate(s: Seq<u8>)
    requires
        s.len() < 16 || s.len() < 20 + le_at(s, 12, 4),
    ensures
        v2_certificate(s) is None,
{
}

} // verus!
