//! The whole check of a package: from its bytes to a trust code.
use vstd::prelude::*;

use crate::fingerprint::{
    md5_digest, md5_of, table_view, trust_code_for_digest, trust_code_in, TrustEntry, UNTRUSTED,
};
use crate::signature_block::{
    decode_id_pairs, encode_id_pairs, magic_offset_of, parse_signature_block, signing_block_magic,
    signing_block_of, IdPairs, pairs_view,
};
use crate::v2signature::{get_v2signature, v2_certificate};
use crate::bytes::{has_match_before, le_at, le_bytes, matches_at, pow256};
use crate::zip_util::{
    cd_offset_of, ecod_fields_at, eocd_bytes, eocd_offset_of, eocd_signature, parse_eocd,
};

verus! {

/// Identifier of the pair that holds the signature-scheme V2 signers.
pub const V2_SIGNATURE_ID: u32 = 0x7109871a;

/// The value of the first pair of `pairs` whose identifier is `V2_SIGNATURE_ID`.
pub open spec fn first_v2_value(pairs: Seq<(u32, Seq<u8>)>) -> Option<Seq<u8>>
    decreases pairs.len(),
{
    if pairs.len() == 0 {
        None
    } else if pairs[0].0 == V2_SIGNATURE_ID {
        Some(pairs[0].1)
    } else {
        first_v2_value(pairs.drop_first())
    }
}

/// The first V2 certificate of the package `s`: found through its End-Of-Central-
/// Directory record, its signing block and the block's first V2 pair.
pub open spec fn package_certificate(s: Seq<u8>) -> Option<Seq<u8>> {
    match cd_offset_of(s) {
        None => None,
        Some(cd) => match signing_block_of(s, cd) {
            Err(_) => None,
            Ok((_, pairs)) => match first_v2_value(pairs) {
                None => None,
                Some(v) => v2_certificate(v),
            },
        },
    }
}

/// The trust code of the package `s` under `table`: the code of its certificate's
/// digest, and `UNTRUSTED` wherever any step fails.
pub open spec fn package_trust(s: Seq<u8>, table: Seq<(Seq<u8>, u8)>) -> u8 {
    match package_certificate(s) {
        None => UNTRUSTED,
        Some(c) => trust_code_in(table, md5_of(c)),
    }
}

fn first_v2_pair(pairs: &Vec<IdPairs>) -> (r: Option<usize>)
    ensures
        match r {
            Some(i) => {
                &&& i < pairs@.len()
                &&& first_v2_value(pairs_view(pairs@)) == Some(pairs@[i as int].value@)
            },
            None => first_v2_value(pairs_view(pairs@)) is None,
        },
{
    let mut i: usize = 0;
    assert(pairs_view(pairs@).subrange(0, pairs@.len() as int) =~= pairs_view(pairs@));
    while i < pairs.len()
        invariant
            i <= pairs@.len(),
            first_v2_value(pairs_view(pairs@)) == first_v2_value(
                pairs_view(pairs@).subrange(i as int, pairs@.len() as int),
            ),
        decreases pairs@.len() - i,
    {
        let ghost rest = pairs_view(pairs@).subrange(i as int, pairs@.len() as int);
        assert(rest.drop_first() =~= pairs_view(pairs@).subrange(i + 1, pairs@.len() as int));
        if pairs[i].id == V2_SIGNATURE_ID {
            return Some(i);
        }
        i = i + 1;
    }
    None
}

/// Extracts the first V2 certificate of the package `data`.
pub fn extract_certificate(data: &[u8]) -> (r: Option<Vec<u8>>)
    ensures
        match r {
            Some(c) => package_certificate(data@) == Some(c@),
            None => package_certificate(data@) is None,
        },
{
    let eocd = match parse_eocd(data) {
        Ok(e) => e,
        Err(_) => return None,
    };
    proof {
        let p = eocd_offset_of(data@)->Some_0;
        assert(ecod_fields_at(eocd, data@, p));
    }
    let block = match parse_signature_block(data, eocd.cd_offset as u64) {
        Ok(b) => b,
        Err(_) => return None,
    };
    match first_v2_pair(&block.id_pairs) {
        Some(i) => get_v2signature(block.id_pairs[i].value.as_slice()),
        None => None,
    }
}

/// The trust code of the package `data` under `table`: the code that `table` gives
/// to the MD5 digest of the package's first V2 certificate, and `UNTRUSTED` where
/// the package has none or its structure cannot be read.
pub fn check_package(data: &[u8], table: &[TrustEntry]) -> (r: u8)
    ensures
        r == package_trust(data@, table_view(table@)),
{
    match extract_certificate(data) {
        Some(cert) => {
            let digest = md5_digest(cert.as_slice());
            trust_code_for_digest(digest.as_slice(), table)
        },
        None => UNTRUSTED,
    }
}

/// A file in which the End-Of-Central-Directory signature occurs nowhere is
/// untrusted, under any table.
pub proof fn lemma_no_eocd_untrusted(s: Seq<u8>, table: Seq<(Seq<u8>, u8)>)
    requires
        !has_match_before(s, eocd_signature(), s.len() as int),
    ensures
        package_trust(s, table) == UNTRUSTED,
{
    crate::bytes::lemma_windowed_search_sound(
        s,
        eocd_signature(),
        s.len() as int,
        crate::zip_util::EOCD_SEARCH_WINDOW as int,
    );
    if eocd_offset_of(s) is Some {
        assert(has_match_before(s, eocd_signature(), s.len() as int));
    }
}

/// A V2 signer payload with one signer, no digests and the one certificate `cert`.
pub open spec fn v2_signer_payload(cert: Seq<u8>) -> Seq<u8> {
    let n = cert.len();
    le_bytes(n + 20, 4) + le_bytes(n + 16, 4) + le_bytes(n + 12, 4) + le_bytes(0, 4) + le_bytes(
        n + 4,
        4,
    ) + le_bytes(n, 4) + cert
}

/// A signing block around the encoded pairs `pairs`: its size, the pairs, its size
/// again and the magic.
pub open spec fn signing_block_bytes(pairs: Seq<u8>) -> Seq<u8> {
    let size = pairs.len() + 24;
    le_bytes(size, 8) + pairs + le_bytes(size, 8) + signing_block_magic()
}

/// The signing block of a package whose one V2 certificate is `cert`.
pub open spec fn v2_block_of(cert: Seq<u8>) -> Seq<u8> {
    signing_block_bytes(encode_id_pairs(seq![(V2_SIGNATURE_ID, v2_signer_payload(cert))]))
}

/// A minimal package whose one V2 certificate is `cert`: its signing block, an empty
/// central directory, and an End-Of-Central-Directory record without comment.
pub open spec fn v2_package(cert: Seq<u8>) -> Seq<u8> {
    let block = v2_block_of(cert);
    block + eocd_bytes(0, 0, 0, 0, 0, block.len() as u32, Seq::empty())
}

/// The V2 signer payload gives back its certificate.
pub proof fn lemma_v2_payload_certificate(cert: Seq<u8>)
    requires
        cert.len() < 0x1000_0000,
    ensures
        v2_certificate(v2_signer_payload(cert)) == Some(cert),
        v2_signer_payload(cert).len() == 24 + cert.len(),
{
    let n = cert.len();
    let s = v2_signer_payload(cert);
    reveal_with_fuel(pow256, 5);
    crate::bytes::lemma_le_bytes_round_trip(n + 16, 4);
    crate::bytes::lemma_le_bytes_round_trip(0, 4);
    crate::bytes::lemma_le_bytes_round_trip(n + 4, 4);
    crate::bytes::lemma_le_bytes_round_trip(n + 20, 4);
    crate::bytes::lemma_le_bytes_round_trip(n + 12, 4);
    crate::bytes::lemma_le_bytes_round_trip(n, 4);
    assert(s.len() == 24 + n);
    assert(s.subrange(4, 8) =~= le_bytes(n + 16, 4));
    assert(s.subrange(12, 16) =~= le_bytes(0, 4));
    assert(s.subrange(16, 20) =~= le_bytes(n + 4, 4));
    assert(s.subrange(24, 24 + n as int) =~= cert);
}

/// A package built around any certificate, in which the End-Of-Central-Directory
/// signature and the signing-block magic occur only where they belong, yields that
/// certificate; its trust code is the one that the table gives to the certificate's
/// digest, so 1 where the table's first entry registers that digest under code 1.
pub proof fn lemma_v2_package_trust(cert: Seq<u8>, table: Seq<(Seq<u8>, u8)>)
    requires
        cert.len() < 0x1000_0000,
        forall|q: int|
            q != v2_block_of(cert).len() ==> !#[trigger] matches_at(
                v2_package(cert),
                eocd_signature(),
                q,
            ),
        forall|q: int|
            q != v2_block_of(cert).len() - 16 ==> !#[trigger] matches_at(
                v2_package(cert),
                signing_block_magic(),
                q,
            ),
    ensures
        package_certificate(v2_package(cert)) == Some(cert),
        package_trust(v2_package(cert), table) == trust_code_in(table, md5_of(cert)),
        table.len() > 0 && table[0] == (md5_of(cert), 1u8) ==> package_trust(
            v2_package(cert),
            table,
        ) == 1,
{
    let n = cert.len();
    let payload = v2_signer_payload(cert);
    let pairs = seq![(V2_SIGNATURE_ID, payload)];
    let encoded = encode_id_pairs(pairs);
    let block = v2_block_of(cert);
    let s = v2_package(cert);
    let size = encoded.len() + 24;
    reveal_with_fuel(pow256, 9);
    lemma_v2_payload_certificate(cert);
    assert(encode_id_pairs(pairs.drop_first()) =~= Seq::<u8>::empty());
    crate::bytes::lemma_le_bytes_round_trip((payload.len() + 4) as nat, 8);
    crate::bytes::lemma_le_bytes_round_trip(V2_SIGNATURE_ID as nat, 4);
    assert(encoded.len() == 36 + n);
    crate::bytes::lemma_le_bytes_round_trip(size, 8);
    assert(block.len() == 68 + n);
    let cd = block.len() as int;
    crate::zip_util::lemma_eocd_located(block, 0, 0, 0, 0, 0, cd as u32, Seq::empty());
    assert(cd_offset_of(s) == Some(cd));
    let m = cd - 16;
    assert(matches_at(s, signing_block_magic(), m)) by {
        assert forall|k: int| 0 <= k < 16 implies #[trigger] s[m + k]
            == signing_block_magic()[k] by {
            assert(s[m + k] == block[m + k]);
        }
    }
    crate::bytes::lemma_windowed_search_complete(s, signing_block_magic(), cd, 128, m);
    crate::bytes::lemma_windowed_search_sound(s, signing_block_magic(), cd, 128);
    assert(magic_offset_of(s, cd) == Some(m));
    assert(s.subrange(m - 8, m) =~= le_bytes(size, 8));
    assert(le_at(s, m - 8, 8) == size);
    let tail = le_bytes(size, 8).subrange(0, 4);
    assert(s.subrange(m + 16 - size, m - 4) =~= encoded + tail);
    assert(pairs[0].1.len() + 4 < pow256(8));
    crate::signature_block::lemma_id_pairs_decode_with_tail(pairs, tail);
    assert(decode_id_pairs(encoded + tail) == Ok::<_, crate::error::ParseError>(pairs));
    assert(signing_block_of(s, cd) == Ok::<_, crate::error::ParseError>((size, pairs)));
    assert(pairs.drop_first().len() == 0);
    assert(first_v2_value(pairs) == Some(payload));
    lemma_v2_payload_certificate(cert);
}

} // verus!
