//! Certificate fingerprints and the table that maps them to trust codes.
use vstd::prelude::*;

verus! {

/// Trust code of a certificate that no table entry recognises.
pub const UNTRUSTED: u8 = 0;

/// The MD5 digest of `data`.
pub uninterp spec fn md5_of(data: Seq<u8>) -> Seq<u8>;

/// Relies on md5::compute: the 16-byte MD5 digest of the bytes, which depends on
/// the bytes alone.
#[verifier::external_body]
pub(crate) fn md5_digest(data: &[u8]) -> (r: Vec<u8>)
    ensures
        r@ == md5_of(data@),
        r@.len() == 16,
{
    md5::compute(data).0.to_vec()
}

/// One recognised certificate: its digest and the trust code it earns.
pub struct TrustEntry {
    pub digest: Vec<u8>,
    pub code: u8,
}

impl View for TrustEntry {
    type V = (Seq<u8>, u8);

    open spec fn view(&self) -> (Seq<u8>, u8) {
        (self.digest@, self.code)
    }
}

/// The (digest, code) views of a table's entries.
pub open spec fn table_view(t: Seq<TrustEntry>) -> Seq<(Seq<u8>, u8)> {
    t.map_values(|e: TrustEntry| e@)
}

/// The code of the first entry of `table` whose digest is `digest`; `UNTRUSTED`
/// where there is none.
pub open spec fn trust_code_in(table: Seq<(Seq<u8>, u8)>, digest: Seq<u8>) -> u8
    decreases table.len(),
{
    if table.len() == 0 {
        UNTRUSTED
    } else if table[0].0 == digest {
        table[0].1
    } else {
        trust_code_in(table.drop_first(), digest)
    }
}

/// The digests of the recognised certificates, with their codes.
pub open spec fn known_certificates() -> Seq<(Seq<u8>, u8)> {
    seq![
        (
            seq![
                0x79u8, 0xF5u8, 0x94u8, 0x7Fu8, 0x1Au8, 0xC7u8, 0x5Du8, 0x23u8,
                0xF5u8, 0x09u8, 0xDDu8, 0xC9u8, 0x7Au8, 0x74u8, 0x9Du8, 0xC7u8,
            ],
            1u8,
        ),
        (
            seq![
                0x99u8, 0x90u8, 0x14u8, 0xB8u8, 0x01u8, 0x0Eu8, 0x81u8, 0xDCu8,
                0x52u8, 0x82u8, 0x56u8, 0x16u8, 0x22u8, 0x8Eu8, 0xCEu8, 0xB9u8,
            ],
            2u8,
        ),
    ]
}

/// The table of recognised certificates.
pub fn default_trust_table() -> (r: Vec<TrustEntry>)
    ensures
        table_view(r@) == known_certificates(),
{
    let first = vec![
        0x79u8, 0xF5u8, 0x94u8, 0x7Fu8, 0x1Au8, 0xC7u8, 0x5Du8, 0x23u8,
        0xF5u8, 0x09u8, 0xDDu8, 0xC9u8, 0x7Au8, 0x74u8, 0x9Du8, 0xC7u8,
    ];
    let second = vec![
        0x99u8, 0x90u8, 0x14u8, 0xB8u8, 0x01u8, 0x0Eu8, 0x81u8, 0xDCu8,
        0x52u8, 0x82u8, 0x56u8, 0x16u8, 0x22u8, 0x8Eu8, 0xCEu8, 0xB9u8,
    ];
    let r = vec![TrustEntry { digest: first, code: 1 }, TrustEntry { digest: second, code: 2 }];
    assert(r@[0].digest@ =~= known_certificates()[0].0);
    assert(r@[1].digest@ =~= known_certificates()[1].0);
    assert(table_view(r@) =~= known_certificates());
    r
}

/// Tells whether `a` and `b` hold the same bytes.
pub fn same_bytes(a: &[u8], b: &[u8]) -> (r: bool)
    ensures
        r == (a@ == b@),
{
    if a.len() != b.len() {
        return false;
    }
    let mut i: usize = 0;
    while i < a.len()
        invariant
            a@.len() == b@.len(),
            i <= a@.len(),
            forall|k: int| 0 <= k < i ==> a@[k] == b@[k],
        decreases a@.len() - i,
    {
        if a[i] != b[i] {
            return false;
        }
        i = i + 1;
    }
    assert(a@ =~= b@);
    true
}

/// The trust code that `table` gives to a certificate whose digest is `digest`.
pub fn trust_code_for_digest(digest: &[u8], table: &[TrustEntry]) -> (r: u8)
    ensures
        r == trust_code_in(table_view(table@), digest@),
{
    let mut i: usize = 0;
    assert(table_view(table@).subrange(0, table@.len() as int) =~= table_view(table@));
    while i < table.len()
        invariant
            i <= table@.len(),
            trust_code_in(table_view(table@), digest@) == trust_code_in(
                table_view(table@).subrange(i as int, table@.len() as int),
                digest@,
            ),
        decreases table@.len() - i,
    {
        let ghost rest = table_view(table@).subrange(i as int, table@.len() as int);
        assert(rest.drop_first() =~= table_view(table@).subrange(i + 1, table@.len() as int));
        if same_bytes(table[i].digest.as_slice(), digest) {
            return table[i].code;
        }
        i = i + 1;
    }
    UNTRUSTED
}

} // verus!
