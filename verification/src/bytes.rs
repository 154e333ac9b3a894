use vstd::prelude::*;

verus! {

/// The little-endian `u16` made of `lo` and `hi`.
pub open spec fn le16(lo: u8, hi: u8) -> u16 {
    (lo as u16) | ((hi as u16) << 8u16)
}

/// The little-endian `u32` stored in `b` at `at`.
pub open spec fn le32(b: Seq<u8>, at: int) -> u32 {
    (b[at] as u32) | ((b[at + 1] as u32) << 8u32) | ((b[at + 2] as u32) << 16u32) | ((
    b[at + 3] as u32) << 24u32)
}

/// The four little-endian bytes of `v`.
pub open spec fn le32_bytes(v: u32) -> Seq<u8> {
    seq![
        (v & 0xffu32) as u8,
        ((v >> 8u32) & 0xffu32) as u8,
        ((v >> 16u32) & 0xffu32) as u8,
        ((v >> 24u32) & 0xffu32) as u8,
    ]
}

pub(crate) fn read_le16(lo: u8, hi: u8) -> (r: u16)
    ensures
        r == le16(lo, hi),
        r as int == lo as int + 256 * hi as int,
{
    assert(((lo as u16) | ((hi as u16) << 8u16)) as int == lo as int + 256 * hi as int)
        by (bit_vector);
    (lo as u16) | ((hi as u16) << 8)
}

pub(crate) fn read_le32(b0: u8, b1: u8, b2: u8, b3: u8) -> (r: u32)
    ensures
        r == le32(seq![b0, b1, b2, b3], 0),
{
    let ghost s = seq![b0, b1, b2, b3];
    assert(s[0] == b0 && s[1] == b1 && s[2] == b2 && s[3] == b3);
    (b0 as u32) | ((b1 as u32) << 8) | ((b2 as u32) << 16) | ((b3 as u32) << 24)
}

pub(crate) fn read_le32_at(b: &[u8], at: usize) -> (r: u32)
    requires
        at + 4 <= b@.len(),
    ensures
        r == le32(b@, at as int),
{
    (b[at] as u32) | ((b[at + 1] as u32) << 8) | ((b[at + 2] as u32) << 16) | ((b[at + 3] as u32)
        << 24)
}

pub(crate) fn write_le32(v: u32) -> (r: [u8; 4])
    ensures
        r@ == le32_bytes(v),
{
    let r = [
        (v & 0xff) as u8,
        ((v >> 8) & 0xff) as u8,
        ((v >> 16) & 0xff) as u8,
        ((v >> 24) & 0xff) as u8,
    ];
    assert(r@ =~= le32_bytes(v));
    r
}

/// Reading back the little-endian bytes of a `u32` gives the `u32`.
pub proof fn law_le32_round_trip(v: u32)
    ensures
        le32(le32_bytes(v), 0) == v,
{
    let b = le32_bytes(v);
    let b0 = (v & 0xffu32) as u8;
    let b1 = ((v >> 8u32) & 0xffu32) as u8;
    let b2 = ((v >> 16u32) & 0xffu32) as u8;
    let b3 = ((v >> 24u32) & 0xffu32) as u8;
    assert(b[0] == b0 && b[1] == b1 && b[2] == b2 && b[3] == b3);
    assert((b0 as u32) | ((b1 as u32) << 8u32) | ((b2 as u32) << 16u32) | ((b3 as u32) << 24u32)
        == v) by (bit_vector)
        requires
            b0 == (v & 0xffu32) as u8,
            b1 == ((v >> 8u32) & 0xffu32) as u8,
            b2 == ((v >> 16u32) & 0xffu32) as u8,
            b3 == ((v >> 24u32) & 0xffu32) as u8,
    ;
}

/// The little-endian `u16` of `lo` and `hi` is `lo + 256 * hi`.
pub proof fn law_le16_value(lo: u8, hi: u8)
    ensures
        le16(lo, hi) as int == lo as int + 256 * hi as int,
{
    assert(((lo as u16) | ((hi as u16) << 8u16)) as int == lo as int + 256 * hi as int)
        by (bit_vector);
}

/// The four little-endian bytes of `v` are its base-256 digits, least
/// significant first.
pub proof fn law_le32_bytes_value(v: u32)
    ensures
        le32_bytes(v).len() == 4,
        le32_bytes(v)[0] == v % 256,
        le32_bytes(v)[1] == (v / 256) % 256,
        le32_bytes(v)[2] == (v / 65536) % 256,
        le32_bytes(v)[3] == v / 16777216,
{
    assert((v & 0xffu32) as u8 == v % 256) by (bit_vector);
    assert(((v >> 8u32) & 0xffu32) as u8 == (v / 256) % 256) by (bit_vector);
    assert(((v >> 16u32) & 0xffu32) as u8 == (v / 65536) % 256) by (bit_vector);
    assert(((v >> 24u32) & 0xffu32) as u8 == v / 16777216) by (bit_vector);
}

} // verus!
