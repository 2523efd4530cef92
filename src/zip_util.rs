//! The ZIP End-Of-Central-Directory record: finding it and decoding it.
use vstd::prelude::*;

use crate::bytes::{
    first_match_from, first_match_in, le_at, le_bytes, matches_at, read_le, search_windows,
    windowed_search,
};
use crate::error::ParseError;

verus! {

/// Bytes scanned at a time while searching for the record, from the end backward.
pub const EOCD_SEARCH_WINDOW: usize = 4096;

/// Size of the record without its trailing comment.
pub const EOCD_HEADER_LEN: usize = 22;

/// The record's signature, 0x06054b50, as it is stored (little-endian).
pub open spec fn eocd_signature() -> Seq<u8> {
    seq![0x50u8, 0x4bu8, 0x05u8, 0x06u8]
}

fn eocd_signature_bytes() -> (r: Vec<u8>)
    ensures
        r@ == eocd_signature(),
{
    let r = vec![0x50u8, 0x4bu8, 0x05u8, 0x06u8];
    assert(r@ =~= eocd_signature());
    r
}

/// End-Of-Central-Directory record.
pub struct Ecod {
    pub magic: u32,
    pub disk_num: u16,
    pub disk_num_start: u16,
    pub num_entries_disk: u16,
    pub num_entries: u16,
    pub cd_size: u32,
    pub cd_offset: u32,
    pub comment_len: u16,
    pub comment: Vec<u8>,
}

/// Offset of the record in the file `s`: scanning from the end backward, window by
/// window, the least offset of the signature in the first window that holds it.
pub open spec fn eocd_offset_of(s: Seq<u8>) -> Option<int> {
    windowed_search(s, eocd_signature(), s.len() as int, EOCD_SEARCH_WINDOW as int)
}

/// The record at offset `p` of `s` is whole: its header and its comment fit in `s`.
pub open spec fn eocd_complete(s: Seq<u8>, p: int) -> bool {
    &&& p + 22 <= s.len()
    &&& p + 22 + le_at(s, p + 20, 2) <= s.len()
}

/// The central directory's offset that the file `s` declares in its record, where
/// the record is found and whole.
pub open spec fn cd_offset_of(s: Seq<u8>) -> Option<int> {
    match eocd_offset_of(s) {
        Some(p) => if eocd_complete(s, p) {
            Some(le_at(s, p + 16, 4) as int)
        } else {
            None
        },
        None => None,
    }
}

/// `e` holds the fields of the record stored at offset `p` of `s`.
pub open spec fn ecod_fields_at(e: Ecod, s: Seq<u8>, p: int) -> bool {
    &&& e.magic == le_at(s, p, 4)
    &&& e.disk_num == le_at(s, p + 4, 2)
    &&& e.disk_num_start == le_at(s, p + 6, 2)
    &&& e.num_entries_disk == le_at(s, p + 8, 2)
    &&& e.num_entries == le_at(s, p + 10, 2)
    &&& e.cd_size == le_at(s, p + 12, 4)
    &&& e.cd_offset == le_at(s, p + 16, 4)
    &&& e.comment_len == le_at(s, p + 20, 2)
    &&& e.comment@ == s.subrange(p + 22, p + 22 + e.comment_len)
}

/// The least offset at which the record's signature occurs whole in the window
/// `buf`.
pub fn find_eocd_in_buffer(buf: &[u8]) -> (r: Option<u64>)
    ensures
        match r {
            Some(p) => first_match_from(buf@, eocd_signature(), 0, buf@.len() as int) == Some(
                p as int,
            ),
            None => first_match_from(buf@, eocd_signature(), 0, buf@.len() as int) is None,
        },
{
    let sig = eocd_signature_bytes();
    match first_match_in(buf, sig.as_slice(), 0, buf.len()) {
        Some(p) => Some(p as u64),
        None => None,
    }
}

/// Finds where the record begins in the file `data`, scanning it backward from its
/// end one window at a time; windows overlap by three bytes, so a signature split
/// between two of them is still found.
pub fn find_eocd_offset(data: &[u8]) -> (r: Result<u64, ParseError>)
    ensures
        match r {
            Ok(p) => {
                &&& eocd_offset_of(data@) == Some(p as int)
                &&& p + 4 <= data@.len()
            },
            Err(e) => {
                &&& e == ParseError::NotFound
                &&& eocd_offset_of(data@) is None
            },
        },
{
    let sig = eocd_signature_bytes();
    match search_windows(data, sig.as_slice(), data.len(), EOCD_SEARCH_WINDOW) {
        Some(p) => Ok(p as u64),
        None => Err(ParseError::NotFound),
    }
}

/// Finds and decodes the record of the file `data`.
pub fn parse_eocd(data: &[u8]) -> (r: Result<Ecod, ParseError>)
    ensures
        match eocd_offset_of(data@) {
            None => r == Err::<Ecod, ParseError>(ParseError::NotFound),
            Some(p) => if eocd_complete(data@, p) {
                match r {
                    Ok(e) => ecod_fields_at(e, data@, p),
                    Err(_) => false,
                }
            } else {
                r == Err::<Ecod, ParseError>(ParseError::Truncated)
            },
        },
{
    let n = data.len();
    let p = match find_eocd_offset(data) {
        Ok(p) => {
            assert(p <= n);
            p as usize
        },
        Err(e) => return Err(e),
    };
    if n - p < EOCD_HEADER_LEN {
        return Err(ParseError::Truncated);
    }
    let comment_len = read_le(data, p + 20, 2);
    proof {
        crate::bytes::lemma_le_value_bound(data@.subrange(p + 20, p + 22));
        reveal_with_fuel(crate::bytes::pow256, 3);
    }
    if n - p - EOCD_HEADER_LEN < comment_len as usize {
        return Err(ParseError::Truncated);
    }
    let magic = read_le(data, p, 4);
    let disk_num = read_le(data, p + 4, 2);
    let disk_num_start = read_le(data, p + 6, 2);
    let num_entries_disk = read_le(data, p + 8, 2);
    let num_entries = read_le(data, p + 10, 2);
    let cd_size = read_le(data, p + 12, 4);
    let cd_offset = read_le(data, p + 16, 4);
    proof {
        crate::bytes::lemma_le_value_bound(data@.subrange(p as int, p + 4));
        crate::bytes::lemma_le_value_bound(data@.subrange(p + 4, p + 6));
        crate::bytes::lemma_le_value_bound(data@.subrange(p + 6, p + 8));
        crate::bytes::lemma_le_value_bound(data@.subrange(p + 8, p + 10));
        crate::bytes::lemma_le_value_bound(data@.subrange(p + 10, p + 12));
        crate::bytes::lemma_le_value_bound(data@.subrange(p + 12, p + 16));
        crate::bytes::lemma_le_value_bound(data@.subrange(p + 16, p + 20));
        reveal_with_fuel(crate::bytes::pow256, 5);
    }
    let start = p + EOCD_HEADER_LEN;
    let comment = crate::bytes::copy_range(data, start, start + comment_len as usize);
    Ok(Ecod {
        magic: magic as u32,
        disk_num: disk_num as u16,
        disk_num_start: disk_num_start as u16,
        num_entries_disk: num_entries_disk as u16,
        num_entries: num_entries as u16,
        cd_size: cd_size as u32,
        cd_offset: cd_offset as u32,
        comment_len: comment_len as u16,
        comment,
    })
}

/// The bytes of a record with the given fields and comment.
pub open spec fn eocd_bytes(
    disk_num: u16,
    disk_num_start: u16,
    num_entries_disk: u16,
    num_entries: u16,
    cd_size: u32,
    cd_offset: u32,
    comment: Seq<u8>,
) -> Seq<u8> {
    eocd_signature() + le_bytes(disk_num as nat, 2) + le_bytes(disk_num_start as nat, 2)
        + le_bytes(num_entries_disk as nat, 2) + le_bytes(num_entries as nat, 2) + le_bytes(
        cd_size as nat,
        4,
    ) + le_bytes(cd_offset as nat, 4) + le_bytes(comment.len(), 2) + comment
}

/// A file that ends with a record, after any bytes at all, has that record found at
/// its place and read back field for field, provided that the signature occurs
/// nowhere else in the file.
pub proof fn lemma_eocd_located(
    prefix: Seq<u8>,
    disk_num: u16,
    disk_num_start: u16,
    num_entries_disk: u16,
    num_entries: u16,
    cd_size: u32,
    cd_offset: u32,
    comment: Seq<u8>,
)
    requires
        comment.len() <= 65535,
        ({
            let s = prefix + eocd_bytes(
                disk_num,
                disk_num_start,
                num_entries_disk,
                num_entries,
                cd_size,
                cd_offset,
                comment,
            );
            forall|q: int| q != prefix.len() ==> !#[trigger] matches_at(s, eocd_signature(), q)
        }),
    ensures
        ({
            let s = prefix + eocd_bytes(
                disk_num,
                disk_num_start,
                num_entries_disk,
                num_entries,
                cd_size,
                cd_offset,
                comment,
            );
            let p = prefix.len() as int;
            &&& eocd_offset_of(s) == Some(p)
            &&& eocd_complete(s, p)
            &&& le_at(s, p, 4) == 0x06054b50
            &&& le_at(s, p + 4, 2) == disk_num
            &&& le_at(s, p + 6, 2) == disk_num_start
            &&& le_at(s, p + 8, 2) == num_entries_disk
            &&& le_at(s, p + 10, 2) == num_entries
            &&& le_at(s, p + 12, 4) == cd_size
            &&& le_at(s, p + 16, 4) == cd_offset
            &&& le_at(s, p + 20, 2) == comment.len()
            &&& s.subrange(p + 22, p + 22 + comment.len()) == comment
        }),
{
    let s = prefix + eocd_bytes(
        disk_num,
        disk_num_start,
        num_entries_disk,
        num_entries,
        cd_size,
        cd_offset,
        comment,
    );
    let p = prefix.len() as int;
    reveal_with_fuel(crate::bytes::pow256, 5);
    crate::bytes::lemma_le_bytes_round_trip(disk_num as nat, 2);
    crate::bytes::lemma_le_bytes_round_trip(disk_num_start as nat, 2);
    crate::bytes::lemma_le_bytes_round_trip(num_entries_disk as nat, 2);
    crate::bytes::lemma_le_bytes_round_trip(num_entries as nat, 2);
    crate::bytes::lemma_le_bytes_round_trip(cd_size as nat, 4);
    crate::bytes::lemma_le_bytes_round_trip(cd_offset as nat, 4);
    crate::bytes::lemma_le_bytes_round_trip(comment.len(), 2);
    assert(s.subrange(p, p + 4) =~= eocd_signature());
    assert(s.subrange(p + 4, p + 6) =~= le_bytes(disk_num as nat, 2));
    assert(s.subrange(p + 6, p + 8) =~= le_bytes(disk_num_start as nat, 2));
    assert(s.subrange(p + 8, p + 10) =~= le_bytes(num_entries_disk as nat, 2));
    assert(s.subrange(p + 10, p + 12) =~= le_bytes(num_entries as nat, 2));
    assert(s.subrange(p + 12, p + 16) =~= le_bytes(cd_size as nat, 4));
    assert(s.subrange(p + 16, p + 20) =~= le_bytes(cd_offset as nat, 4));
    assert(s.subrange(p + 20, p + 22) =~= le_bytes(comment.len(), 2));
    assert(s.subrange(p + 22, p + 22 + comment.len()) =~= comment);
    let sig = eocd_signature();
    let bytes = s.subrange(p, p + 4);
    assert(le_at(s, p, 4) == 0x06054b50) by {
        reveal_with_fuel(crate::bytes::le_value, 5);
        assert(bytes.drop_first() =~= seq![0x4bu8, 0x05u8, 0x06u8]);
        assert(bytes.drop_first().drop_first() =~= seq![0x05u8, 0x06u8]);
        assert(bytes.drop_first().drop_first().drop_first() =~= seq![0x06u8]);
        assert(bytes.drop_first().drop_first().drop_first().drop_first() =~= Seq::<u8>::empty());
    }
    assert forall|k: int| 0 <= k < sig.len() implies #[trigger] s[p + k] == sig[k] by {
        assert(s[p + k] == bytes[k]);
    }
    assert(matches_at(s, sig, p));
    crate::bytes::lemma_windowed_search_complete(s, sig, s.len() as int, 4096, p);
    crate::bytes::lemma_windowed_search_sound(s, sig, s.len() as int, 4096);
}

/// A signature anywhere in the file is found, also where it straddles the boundary
/// between two of the scan's windows; and what the scan finds is a signature.
pub proof fn lemma_eocd_signature_found(s: Seq<u8>, p: int)
    requires
        matches_at(s, eocd_signature(), p),
    ensures
        eocd_offset_of(s) matches Some(q) && matches_at(s, eocd_signature(), q),
{
    crate::bytes::lemma_windowed_search_complete(s, eocd_signature(), s.len() as int, 4096, p);
    crate::bytes::lemma_windowed_search_sound(s, eocd_signature(), s.len() as int, 4096);
}

} // verus!
