use apk_integrity::error::ParseError;
use apk_integrity::zip_util::{find_eocd_in_buffer, find_eocd_offset, parse_eocd};

fn eocd_record(cd_size: u32, cd_offset: u32, comment: &[u8]) -> Vec<u8> {
    let mut r = vec![0x50, 0x4b, 0x05, 0x06];
    r.extend_from_slice(&1u16.to_le_bytes());
    r.extend_from_slice(&2u16.to_le_bytes());
    r.extend_from_slice(&3u16.to_le_bytes());
    r.extend_from_slice(&4u16.to_le_bytes());
    r.extend_from_slice(&cd_size.to_le_bytes());
    r.extend_from_slice(&cd_offset.to_le_bytes());
    r.extend_from_slice(&(comment.len() as u16).to_le_bytes());
    r.extend_from_slice(comment);
    r
}

fn package_with_comment(prefix_len: usize, comment: &[u8]) -> Vec<u8> {
    let mut data = vec![0xAAu8; prefix_len];
    data.extend(eocd_record(0x1234, 0x5678_9abc, comment));
    data
}

fn check_fixture(prefix_len: usize, comment: &[u8]) {
    let data = package_with_comment(prefix_len, comment);
    assert_eq!(find_eocd_offset(&data), Ok(prefix_len as u64));
    let e = parse_eocd(&data).ok().unwrap();
    assert_eq!(e.magic, 0x06054b50);
    assert_eq!(e.disk_num, 1);
    assert_eq!(e.disk_num_start, 2);
    assert_eq!(e.num_entries_disk, 3);
    assert_eq!(e.num_entries, 4);
    assert_eq!(e.cd_size, 0x1234);
    assert_eq!(e.cd_offset, 0x5678_9abc);
    assert_eq!(e.comment_len as usize, comment.len());
    assert_eq!(e.comment, comment.to_vec());
}

#[test]
fn eocd_with_empty_comment() {
    check_fixture(100, &[]);
}

#[test]
fn eocd_with_one_byte_comment() {
    check_fixture(5000, &[0x42]);
}

#[test]
fn eocd_with_longest_comment() {
    let comment: Vec<u8> = (0..65535u32).map(|i| (i % 200) as u8).collect();
    check_fixture(9000, &comment);
}

#[test]
fn eocd_at_start_of_file() {
    check_fixture(0, &[1, 2, 3]);
}

#[test]
fn eocd_straddling_window_boundary() {
    // The last window covers the final 4096 bytes; the signature starts two bytes
    // before it, so its bytes are split between that window and the one before.
    let total = 10000usize;
    let at = total - 4096 - 2;
    let mut data = vec![0u8; total];
    data[at..at + 4].copy_from_slice(&[0x50, 0x4b, 0x05, 0x06]);
    assert_eq!(find_eocd_offset(&data), Ok(at as u64));
    assert_eq!(find_eocd_in_buffer(&data), Some(at as u64));
}

#[test]
fn eocd_straddling_every_offset_near_boundary() {
    let total = 9000usize;
    for at in (total - 4096 - 4)..(total - 4096 + 4) {
        let mut data = vec![0u8; total];
        data[at..at + 4].copy_from_slice(&[0x50, 0x4b, 0x05, 0x06]);
        assert_eq!(find_eocd_offset(&data), Ok(at as u64));
    }
}

#[test]
fn eocd_first_occurrence_in_window_wins() {
    let mut data = vec![0u8; 64];
    data[10..14].copy_from_slice(&[0x50, 0x4b, 0x05, 0x06]);
    data[40..44].copy_from_slice(&[0x50, 0x4b, 0x05, 0x06]);
    assert_eq!(find_eocd_in_buffer(&data), Some(10));
    assert_eq!(find_eocd_offset(&data), Ok(10));
    let mut window = vec![0u8; 4096];
    window[0..4].copy_from_slice(&[0x50, 0x4b, 0x05, 0x06]);
    window[4092..4096].copy_from_slice(&[0x50, 0x4b, 0x05, 0x06]);
    assert_eq!(find_eocd_in_buffer(&window), Some(0));
}

#[test]
fn eocd_signature_in_comment_does_not_hide_record() {
    let data = package_with_comment(200, &[0x50, 0x4b, 0x05, 0x06, 7, 7]);
    assert_eq!(find_eocd_offset(&data), Ok(200));
    let e = parse_eocd(&data).ok().unwrap();
    assert_eq!(e.comment, vec![0x50, 0x4b, 0x05, 0x06, 7, 7]);
}

#[test]
fn eocd_window_nearest_the_end_decides() {
    // One signature lies only in an earlier window, one in the last window.
    let mut data = vec![0u8; 10000];
    data[100..104].copy_from_slice(&[0x50, 0x4b, 0x05, 0x06]);
    data[9000..9004].copy_from_slice(&[0x50, 0x4b, 0x05, 0x06]);
    assert_eq!(find_eocd_offset(&data), Ok(9000));
}

#[test]
fn eocd_missing_is_not_found() {
    let data = vec![0x11u8; 20000];
    assert_eq!(find_eocd_offset(&data), Err(ParseError::NotFound));
    assert!(matches!(parse_eocd(&data), Err(ParseError::NotFound)));
    assert_eq!(find_eocd_in_buffer(&[]), None);
    assert_eq!(find_eocd_in_buffer(&[0x50, 0x4b, 0x05]), None);
}

#[test]
fn eocd_header_cut_short_is_truncated() {
    let mut data = vec![0u8; 30];
    data.extend_from_slice(&[0x50, 0x4b, 0x05, 0x06, 0, 0, 0, 0]);
    assert!(matches!(parse_eocd(&data), Err(ParseError::Truncated)));
}

#[test]
fn eocd_comment_cut_short_is_truncated() {
    let mut data = package_with_comment(10, &[9, 9, 9, 9]);
    data.truncate(data.len() - 2);
    assert!(matches!(parse_eocd(&data), Err(ParseError::Truncated)));
}
