use vstd::prelude::*;
use byteorder::ByteOrder;

verus! {

/// The text that lossy UTF-8 decoding makes of a byte sequence: valid
/// sequences are kept and each invalid one becomes U+FFFD.
pub uninterp spec fn utf8_lossy(b: Seq<u8>) -> Seq<char>;

/// The value of the four bytes `b[p..p + 4]` read as a little-endian `u32`.
pub open spec fn u32_le_at(b: Seq<u8>, p: int) -> u32 {
    (b[p] as int + 0x100 * b[p + 1] as int + 0x1_0000 * b[p + 2] as int + 0x100_0000 * b[
        p + 3
    ] as int) as u32
}

/// Relies on `String::from_utf8_lossy`: the text depends on the bytes alone,
/// and no bytes give no text.
#[verifier::external_body]
pub(crate) fn lossy_string(b: &[u8]) -> (r: String)
    ensures
        r@ == utf8_lossy(b@),
        b@.len() == 0 ==> r@.len() == 0,
{
    String::from_utf8_lossy(b).into_owned()
}

/// Relies on `byteorder::LittleEndian::read_u32`: the first four bytes as a
/// little-endian integer; it panics on fewer than four.
#[verifier::external_body]
pub(crate) fn read_u32_le(b: &[u8]) -> (r: u32)
    requires
        b@.len() >= 4,
    ensures
        r == u32_le_at(b@, 0),
{
    byteorder::LittleEndian::read_u32(b)
}

} // verus!
