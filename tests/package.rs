use apk_integrity::fingerprint::{default_trust_table, trust_code_for_digest, TrustEntry, UNTRUSTED};
use apk_integrity::package::{check_package, extract_certificate};

fn signer_payload(cert: &[u8]) -> Vec<u8> {
    let mut certs = Vec::new();
    certs.extend_from_slice(&(cert.len() as u32).to_le_bytes());
    certs.extend_from_slice(cert);
    let mut signed = Vec::new();
    signed.extend_from_slice(&0u32.to_le_bytes());
    signed.extend_from_slice(&(certs.len() as u32).to_le_bytes());
    signed.extend_from_slice(&certs);
    let mut signer = Vec::new();
    signer.extend_from_slice(&(signed.len() as u32).to_le_bytes());
    signer.extend_from_slice(&signed);
    let mut r = Vec::new();
    r.extend_from_slice(&((signer.len() + 4) as u32).to_le_bytes());
    r.extend_from_slice(&(signer.len() as u32).to_le_bytes());
    r.extend_from_slice(&signer);
    r
}

fn minimal_package(cert: &[u8]) -> Vec<u8> {
    let value = signer_payload(cert);
    let mut pairs = Vec::new();
    pairs.extend_from_slice(&((value.len() + 4) as u64).to_le_bytes());
    pairs.extend_from_slice(&0x7109871au32.to_le_bytes());
    pairs.extend_from_slice(&value);
    let size = (pairs.len() + 8 + 16) as u64;
    let mut data = Vec::new();
    data.extend_from_slice(&size.to_le_bytes());
    data.extend_from_slice(&pairs);
    data.extend_from_slice(&size.to_le_bytes());
    data.extend_from_slice(b"APK Sig Block 42");
    let cd_offset = data.len() as u32;
    data.extend_from_slice(&[0x50, 0x4b, 0x05, 0x06, 0, 0, 0, 0, 0, 0, 0, 0, 0, 0, 0, 0]);
    data.extend_from_slice(&cd_offset.to_le_bytes());
    data.extend_from_slice(&[0, 0]);
    data
}

fn digest_of(bytes: &[u8]) -> Vec<u8> {
    md5::compute(bytes).0.to_vec()
}

#[test]
fn package_with_unknown_certificate_is_untrusted() {
    let data = minimal_package(&[0xDE, 0xAD, 0xBE, 0xEF]);
    assert_eq!(extract_certificate(&data), Some(vec![0xDE, 0xAD, 0xBE, 0xEF]));
    assert_eq!(check_package(&data, &default_trust_table()), 0);
}

#[test]
fn package_with_registered_certificate_gets_its_code() {
    let cert = [0xDE, 0xAD, 0xBE, 0xEF];
    let data = minimal_package(&cert);
    let mut table = default_trust_table();
    table.push(TrustEntry { digest: digest_of(&cert), code: 1 });
    assert_eq!(check_package(&data, &table), 1);
}

#[test]
fn package_table_holds_digest_not_certificate() {
    let cert = [0xDE, 0xAD, 0xBE, 0xEF];
    let data = minimal_package(&cert);
    let table = vec![TrustEntry { digest: cert.to_vec(), code: 3 }];
    assert_eq!(check_package(&data, &table), UNTRUSTED);
}

#[test]
fn package_first_matching_entry_decides() {
    let cert = [1u8, 2, 3];
    let data = minimal_package(&cert);
    let table = vec![
        TrustEntry { digest: vec![0; 16], code: 7 },
        TrustEntry { digest: digest_of(&cert), code: 2 },
        TrustEntry { digest: digest_of(&cert), code: 5 },
    ];
    assert_eq!(check_package(&data, &table), 2);
}

#[test]
fn package_without_eocd_is_untrusted() {
    let data = vec![0x5au8; 100_000];
    assert_eq!(extract_certificate(&data), None);
    assert_eq!(check_package(&data, &default_trust_table()), 0);
    assert_eq!(check_package(&[], &default_trust_table()), 0);
}

#[test]
fn package_without_signing_block_is_untrusted() {
    let mut data = vec![0u8; 50];
    data.extend_from_slice(&[0x50, 0x4b, 0x05, 0x06]);
    data.extend_from_slice(&[0u8; 12]);
    data.extend_from_slice(&50u32.to_le_bytes());
    data.extend_from_slice(&[0, 0]);
    assert_eq!(extract_certificate(&data), None);
    assert_eq!(check_package(&data, &default_trust_table()), 0);
}

#[test]
fn trust_table_lookup_by_digest() {
    let table = default_trust_table();
    let first = [
        0x79, 0xF5, 0x94, 0x7F, 0x1A, 0xC7, 0x5D, 0x23, 0xF5, 0x09, 0xDD, 0xC9, 0x7A, 0x74,
        0x9D, 0xC7,
    ];
    let second = [
        0x99, 0x90, 0x14, 0xB8, 0x01, 0x0E, 0x81, 0xDC, 0x52, 0x82, 0x56, 0x16, 0x22, 0x8E,
        0xCE, 0xB9,
    ];
    assert_eq!(trust_code_for_digest(&first, &table), 1);
    assert_eq!(trust_code_for_digest(&second, &table), 2);
    assert_eq!(trust_code_for_digest(&[0u8; 16], &table), 0);
    assert_eq!(trust_code_for_digest(&first[..15], &table), 0);
    assert_eq!(trust_code_for_digest(&first, &[]), 0);
}
