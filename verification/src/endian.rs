//! Little-endian values.

use vstd::prelude::*;

verus! {

/// `v` modulo 2^16, little-endian.
#[verifier::opaque]
pub open spec fn le16(v: int) -> Seq<u8> {
    let w = v % 0x1_0000;
    seq![(w % 256) as u8, (w / 256) as u8]
}

/// `v` modulo 2^32, little-endian.
#[verifier::opaque]
pub open spec fn le32(v: int) -> Seq<u8> {
    let w = v % 0x1_0000_0000;
    seq![
        (w % 256) as u8,
        (w / 256 % 256) as u8,
        (w / 65536 % 256) as u8,
        (w / 16777216) as u8,
    ]
}

/// A 16-bit value has two bytes.
pub broadcast proof fn lemma_le16_len(v: int)
    ensures
        #[trigger] le16(v).len() == 2,
{
    reveal(le16);
}

/// A 32-bit value has four bytes.
pub broadcast proof fn lemma_le32_len(v: int)
    ensures
        #[trigger] le32(v).len() == 4,
{
    reveal(le32);
}

/// Only the value modulo 2^32 counts.
pub proof fn lemma_le32_wraps(a: int, b: int)
    requires
        a % 0x1_0000_0000 == b % 0x1_0000_0000,
    ensures
        le32(a) == le32(b),
{
    reveal(le32);
}

} // verus!
