use apk_integrity::v2signature::get_v2signature;

fn signer_payload(cert: &[u8], digests: &[u8]) -> Vec<u8> {
    let mut certs = Vec::new();
    certs.extend_from_slice(&(cert.len() as u32).to_le_bytes());
    certs.extend_from_slice(cert);
    let mut signed = Vec::new();
    signed.extend_from_slice(&(digests.len() as u32).to_le_bytes());
    signed.extend_from_slice(digests);
    signed.extend_from_slice(&(certs.len() as u32).to_le_bytes());
    signed.extend_from_slice(&certs);
    let mut signer = Vec::new();
    signer.extend_from_slice(&(signed.len() as u32).to_le_bytes());
    signer.extend_from_slice(&signed);
    let mut r = Vec::new();
    r.extend_from_slice(&((signer.len() + 4) as u32).to_le_bytes());
    r.extend_from_slice(&(signer.len() as u32).to_le_bytes());
    r.extend_from_slice(&signer);
    r
}

#[test]
fn v2_first_certificate_is_extracted() {
    let p = signer_payload(&[0xDE, 0xAD, 0xBE, 0xEF], &[1, 2, 3, 4, 5, 6]);
    assert_eq!(get_v2signature(&p), Some(vec![0xDE, 0xAD, 0xBE, 0xEF]));
}

#[test]
fn v2_empty_certificate_is_extracted() {
    let p = signer_payload(&[], &[]);
    assert_eq!(get_v2signature(&p), Some(vec![]));
}

#[test]
fn v2_short_input_has_no_certificate() {
    assert_eq!(get_v2signature(&[]), None);
    assert_eq!(get_v2signature(&[1, 2, 3, 4, 5, 6, 7]), None);
}

#[test]
fn v2_truncated_before_certificates_length() {
    let p = signer_payload(&[0xDE, 0xAD, 0xBE, 0xEF], &[7; 10]);
    // The certificates-sequence length field starts at 16 + 10.
    for cut in 0..30 {
        assert_eq!(get_v2signature(&p[..cut]), None, "cut at {}", cut);
    }
    let mut q = p[..26].to_vec();
    q.extend_from_slice(&[0xff, 0xff]);
    assert_eq!(get_v2signature(&q), None);
}

#[test]
fn v2_signer_longer_than_input_has_no_certificate() {
    let mut p = signer_payload(&[1, 2], &[]);
    p[4..8].copy_from_slice(&1000u32.to_le_bytes());
    assert_eq!(get_v2signature(&p), None);
}

#[test]
fn v2_certificates_length_below_four_has_no_certificate() {
    let mut p = signer_payload(&[1, 2], &[]);
    p[16..20].copy_from_slice(&3u32.to_le_bytes());
    assert_eq!(get_v2signature(&p), None);
}

#[test]
fn v2_certificate_past_end_has_no_certificate() {
    let mut p = signer_payload(&[1, 2, 3], &[]);
    p.truncate(p.len() - 1);
    assert_eq!(get_v2signature(&p), None);
}
