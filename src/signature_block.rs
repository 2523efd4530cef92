//! The signing block that sits before the central directory, and its ID-value pairs.
use vstd::prelude::*;

use crate::bytes::{copy_range, le_at, le_bytes, pow256, read_le, search_windows, windowed_search};
use crate::error::ParseError;

verus! {

/// Bytes scanned at a time while searching for the block's magic, from the
/// central directory backward.
pub const MAGIC_SEARCH_WINDOW: usize = 128;

/// The 16-byte marker that ends a signing block: "APK Sig Block 42".
pub open spec fn signing_block_magic() -> Seq<u8> {
    seq![
        0x41u8, 0x50u8, 0x4bu8, 0x20u8, 0x53u8, 0x69u8, 0x67u8, 0x20u8,
        0x42u8, 0x6cu8, 0x6fu8, 0x63u8, 0x6bu8, 0x20u8, 0x34u8, 0x32u8,
    ]
}

fn magic_array() -> (r: [u8; 16])
    ensures
        r@ == signing_block_magic(),
{
    let r: [u8; 16] = [
        0x41u8, 0x50u8, 0x4bu8, 0x20u8, 0x53u8, 0x69u8, 0x67u8, 0x20u8,
        0x42u8, 0x6cu8, 0x6fu8, 0x63u8, 0x6bu8, 0x20u8, 0x34u8, 0x32u8,
    ];
    assert(r@ =~= signing_block_magic());
    r
}

/// One ID-value pair of a signing block.
pub struct IdPairs {
    /// Four more than the length of `value`.
    pub len: u64,
    pub id: u32,
    pub value: Vec<u8>,
}

impl View for IdPairs {
    type V = (u32, Seq<u8>);

    open spec fn view(&self) -> (u32, Seq<u8>) {
        (self.id, self.value@)
    }
}

/// A decoded signing block.
pub struct SignatureBlock {
    pub id_pairs: Vec<IdPairs>,
    /// Declared size: the bytes from the size field before the magic through the
    /// end of the magic.
    pub size: u64,
    pub magic: [u8; 16],
}

/// The (identifier, value) views of a sequence of pairs.
pub open spec fn pairs_view(v: Seq<IdPairs>) -> Seq<(u32, Seq<u8>)> {
    v.map_values(|p: IdPairs| p@)
}

/// `r` with `head` put before its pairs, or the same error.
pub open spec fn prefixed(
    head: Seq<(u32, Seq<u8>)>,
    r: Result<Seq<(u32, Seq<u8>)>, ParseError>,
) -> Result<Seq<(u32, Seq<u8>)>, ParseError> {
    match r {
        Ok(rest) => Ok(head + rest),
        Err(e) => Err(e),
    }
}

/// The pairs encoded in `s`: an 8-byte length `l`, a 4-byte identifier and `l - 4`
/// bytes of value, again and again, until fewer than 8 bytes are left. A pair whose
/// declared length is below 4 or reaches past the end is invalid data.
pub open spec fn decode_id_pairs(s: Seq<u8>) -> Result<Seq<(u32, Seq<u8>)>, ParseError>
    decreases s.len(),
{
    if s.len() < 8 {
        Ok(Seq::empty())
    } else {
        let l = le_at(s, 0, 8) as int;
        if s.len() < 12 || l < 4 || s.len() < 8 + l {
            Err(ParseError::InvalidData)
        } else {
            prefixed(
                seq![(le_at(s, 8, 4) as u32, s.subrange(12, 8 + l))],
                decode_id_pairs(s.subrange(8 + l, s.len() as int)),
            )
        }
    }
}

/// The bytes that encode `pairs`, in the layout that `decode_id_pairs` reads.
pub open spec fn encode_id_pairs(pairs: Seq<(u32, Seq<u8>)>) -> Seq<u8>
    decreases pairs.len(),
{
    if pairs.len() == 0 {
        Seq::empty()
    } else {
        le_bytes((pairs[0].1.len() + 4) as nat, 8) + le_bytes(pairs[0].0 as nat, 4) + pairs[0].1
            + encode_id_pairs(pairs.drop_first())
    }
}

/// Decodes the ID-value pairs of a signing block's payload.
pub fn parse_id_pairs(raw_data: &[u8]) -> (r: Result<Vec<IdPairs>, ParseError>)
    ensures
        match r {
            Ok(pairs) => decode_id_pairs(raw_data@) == Ok::<_, ParseError>(pairs_view(pairs@)),
            Err(e) => decode_id_pairs(raw_data@) == Err::<Seq<(u32, Seq<u8>)>, _>(e),
        },
        r matches Ok(pairs) ==> forall|i: int|
            0 <= i < pairs@.len() ==> #[trigger] pairs@[i].len == pairs@[i].value@.len() + 4,
{
    let n = raw_data.len();
    let mut id_pairs: Vec<IdPairs> = Vec::new();
    let mut pos: usize = 0;
    proof {
        assert(raw_data@.subrange(0, n as int) =~= raw_data@);
        let all = decode_id_pairs(raw_data@);
        if all is Ok {
            assert(pairs_view(id_pairs@) + all->Ok_0 =~= all->Ok_0);
        }
    }
    while n - pos >= 8
        invariant
            raw_data@.len() == n,
            pos <= n,
            decode_id_pairs(raw_data@) == prefixed(
                pairs_view(id_pairs@),
                decode_id_pairs(raw_data@.subrange(pos as int, n as int)),
            ),
            forall|i: int|
                0 <= i < id_pairs@.len() ==> #[trigger] id_pairs@[i].len
                    == id_pairs@[i].value@.len() + 4,
        decreases n - pos,
    {
        let ghost t = raw_data@.subrange(pos as int, n as int);
        if n - pos < 12 {
            return Err(ParseError::InvalidData);
        }
        let l = read_le(raw_data, pos, 8);
        assert(t.subrange(0, 8) =~= raw_data@.subrange(pos as int, pos + 8));
        if l < 4 || ((n - pos - 8) as u64) < l {
            return Err(ParseError::InvalidData);
        }
        let id = read_le(raw_data, pos + 8, 4);
        proof {
            crate::bytes::lemma_le_value_bound(raw_data@.subrange(pos + 8, pos + 12));
            reveal_with_fuel(crate::bytes::pow256, 5);
        }
        assert(t.subrange(8, 12) =~= raw_data@.subrange(pos + 8, pos + 12));
        let end = pos + 8 + l as usize;
        let value = copy_range(raw_data, pos + 12, end);
        assert(t.subrange(12, 8 + l) =~= raw_data@.subrange(pos + 12, end as int));
        assert(t.subrange(8 + l, t.len() as int) =~= raw_data@.subrange(end as int, n as int));
        let ghost head = pairs_view(id_pairs@);
        let pair = IdPairs { len: l, id: id as u32, value };
        id_pairs.push(pair);
        proof {
            assert(pairs_view(id_pairs@) =~= head.push((id as u32, value@)));
            let rest = decode_id_pairs(raw_data@.subrange(end as int, n as int));
            if rest is Ok {
                assert(head + (seq![(id as u32, value@)] + rest->Ok_0) =~= pairs_view(id_pairs@)
                    + rest->Ok_0);
            }
        }
        pos = end;
    }
    proof {
        assert(pairs_view(id_pairs@) + Seq::empty() =~= pairs_view(id_pairs@));
    }
    Ok(id_pairs)
}

/// Where the search for the magic stops: the central directory's offset, or the end
/// of the file where that offset lies beyond it.
pub open spec fn magic_search_end(s: Seq<u8>, cd_offset: int) -> int {
    if cd_offset < s.len() {
        cd_offset
    } else {
        s.len() as int
    }
}

/// Offset of the magic: scanning backward from the central directory, window by
/// window, its least offset in the first window that holds it whole.
pub open spec fn magic_offset_of(s: Seq<u8>, cd_offset: int) -> Option<int> {
    windowed_search(
        s,
        signing_block_magic(),
        magic_search_end(s, cd_offset),
        MAGIC_SEARCH_WINDOW as int,
    )
}

/// The declared size and the pairs of the signing block of the file `s` whose
/// central directory begins at `cd_offset`. The size is read from the 8 bytes before
/// the magic; the payload is the `size - 20` bytes that start `size - 16` bytes
/// before the magic.
pub open spec fn signing_block_of(s: Seq<u8>, cd_offset: int) -> Result<
    (nat, Seq<(u32, Seq<u8>)>),
    ParseError,
> {
    match magic_offset_of(s, cd_offset) {
        None => Err(ParseError::NotFound),
        Some(m) => if m < 8 {
            Err(ParseError::Truncated)
        } else {
            let size = le_at(s, m - 8, 8) as int;
            if size < 20 || size > m + 16 {
                Err(ParseError::InvalidData)
            } else {
                match decode_id_pairs(s.subrange(m + 16 - size, m - 4)) {
                    Ok(pairs) => Ok((size as nat, pairs)),
                    Err(e) => Err(e),
                }
            }
        },
    }
}

/// Finds the offset of the signing block's magic, searching backward from the
/// central directory one window at a time.
pub fn find_magic_offset(data: &[u8], cd_offset: u64) -> (r: Option<u64>)
    ensures
        match r {
            Some(m) => {
                &&& magic_offset_of(data@, cd_offset as int) == Some(m as int)
                &&& m + 16 <= data@.len()
            },
            None => magic_offset_of(data@, cd_offset as int) is None,
        },
{
    let n = data.len();
    let hi: usize = if cd_offset < n as u64 {
        cd_offset as usize
    } else {
        n
    };
    let magic = magic_array();
    match search_windows(data, magic.as_slice(), hi, MAGIC_SEARCH_WINDOW) {
        Some(m) => Some(m as u64),
        None => None,
    }
}

/// Finds and decodes the signing block of the file `data`, whose central directory
/// begins at `start`.
pub fn parse_signature_block(data: &[u8], start: u64) -> (r: Result<SignatureBlock, ParseError>)
    ensures
        match r {
            Ok(b) => signing_block_of(data@, start as int) == Ok::<_, ParseError>(
                (b.size as nat, pairs_view(b.id_pairs@)),
            ),
            Err(e) => signing_block_of(data@, start as int) == Err::<
                (nat, Seq<(u32, Seq<u8>)>),
                _,
            >(e),
        },
        r matches Ok(b) ==> b.magic@ == signing_block_magic(),
        r matches Ok(b) ==> forall|i: int|
            0 <= i < b.id_pairs@.len() ==> #[trigger] b.id_pairs@[i].len
                == b.id_pairs@[i].value@.len() + 4,
{
    let n = data.len();
    let m = match find_magic_offset(data, start) {
        Some(m) => {
            assert(m <= n);
            m as usize
        },
        None => return Err(ParseError::NotFound),
    };
    if m < 8 {
        return Err(ParseError::Truncated);
    }
    let size = read_le(data, m - 8, 8);
    if size < 20 || size - 16 > m as u64 {
        return Err(ParseError::InvalidData);
    }
    let from = m + 16 - size as usize;
    let payload = vstd::slice::slice_subrange(data, from, m - 4);
    match parse_id_pairs(payload) {
        Ok(id_pairs) => Ok(SignatureBlock { id_pairs, size, magic: magic_array() }),
        Err(e) => Err(e),
    }
}

/// Decoding the encoding of a sequence of pairs gives back the same pairs, in the
/// same order, whatever their identifiers and values.
pub proof fn lemma_id_pairs_round_trip(pairs: Seq<(u32, Seq<u8>)>)
    requires
        forall|i: int| 0 <= i < pairs.len() ==> #[trigger] pairs[i].1.len() + 4 < pow256(8),
    ensures
        decode_id_pairs(encode_id_pairs(pairs)) == Ok::<_, ParseError>(pairs),
{
    lemma_id_pairs_decode_with_tail(pairs, Seq::empty());
    assert(encode_id_pairs(pairs) + Seq::<u8>::empty() =~= encode_id_pairs(pairs));
}

/// Encoded pairs followed by fewer than 8 further bytes decode to the same pairs.
pub proof fn lemma_id_pairs_decode_with_tail(pairs: Seq<(u32, Seq<u8>)>, tail: Seq<u8>)
    requires
        forall|i: int| 0 <= i < pairs.len() ==> #[trigger] pairs[i].1.len() + 4 < pow256(8),
        tail.len() < 8,
    ensures
        decode_id_pairs(encode_id_pairs(pairs) + tail) == Ok::<_, ParseError>(pairs),
    decreases pairs.len(),
{
    if pairs.len() == 0 {
        assert(encode_id_pairs(pairs) + tail =~= tail);
        assert(Seq::<(u32, Seq<u8>)>::empty() =~= pairs);
    } else {
        let (id, v) = pairs[0];
        let rest = pairs.drop_first();
        assert forall|i: int| 0 <= i < rest.len() implies #[trigger] rest[i].1.len() + 4 < pow256(
            8,
        ) by {
            assert(rest[i] == pairs[i + 1]);
        }
        lemma_id_pairs_decode_with_tail(rest, tail);
        let l = (v.len() + 4) as int;
        assert(pairs[0].1.len() + 4 < pow256(8));
        reveal_with_fuel(pow256, 5);
        crate::bytes::lemma_le_bytes_round_trip(l as nat, 8);
        crate::bytes::lemma_le_bytes_round_trip(id as nat, 4);
        let s = encode_id_pairs(pairs) + tail;
        let after = encode_id_pairs(rest) + tail;
        assert(s.subrange(0, 8) =~= le_bytes(l as nat, 8));
        assert(s.subrange(8, 12) =~= le_bytes(id as nat, 4));
        assert(s.subrange(12, 8 + l) =~= v);
        assert(s.subrange(8 + l, s.len() as int) =~= after);
        assert(seq![(id, v)] + rest =~= pairs);
    }
}

/// A block whose declared size is larger than the whole file is rejected as
/// invalid data.
pub proof fn lemma_oversized_block_rejected(s: Seq<u8>, cd_offset: int, m: int)
    requires
        magic_offset_of(s, cd_offset) == Some(m),
        m >= 8,
        le_at(s, m - 8, 8) > s.len(),
    ensures
        signing_block_of(s, cd_offset) == Err::<(nat, Seq<(u32, Seq<u8>)>), _>(
            ParseError::InvalidData,
        ),
{
    crate::bytes::lemma_windowed_search_sound(
        s,
        signing_block_magic(),
        magic_search_end(s, cd_offset),
        MAGIC_SEARCH_WINDOW as int,
    );
}

} // verus!
