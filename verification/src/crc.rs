use vstd::prelude::*;

verus! {

/// One reflected shift of the CRC-32/ISO-HDLC register (polynomial 0x04C11DB7,
/// reflected as 0xEDB88320).
pub open spec fn crc_shift(crc: u32) -> u32 {
    if crc & 1 != 0 {
        (crc >> 1) ^ 0xedb8_8320u32
    } else {
        crc >> 1
    }
}

/// `n` reflected shifts of the register.
pub open spec fn crc_shifts(crc: u32, n: nat) -> u32
    decreases n,
{
    if n == 0 {
        crc
    } else {
        crc_shift(crc_shifts(crc, (n - 1) as nat))
    }
}

/// The register after absorbing one byte.
pub open spec fn crc_byte(crc: u32, byte: u8) -> u32 {
    crc_shifts(crc ^ (byte as u32), 8)
}

/// The register after absorbing `bytes` in order, starting from `crc`.
pub open spec fn crc_absorb(crc: u32, bytes: Seq<u8>) -> u32
    decreases bytes.len(),
{
    if bytes.len() == 0 {
        crc
    } else {
        crc_byte(crc_absorb(crc, bytes.drop_last()), bytes.last())
    }
}

/// CRC-32/ISO-HDLC of `bytes`: initial value and final XOR 0xFFFFFFFF.
pub open spec fn crc32_spec(bytes: Seq<u8>) -> u32 {
    crc_absorb(0xffff_ffffu32, bytes) ^ 0xffff_ffffu32
}

/// Absorbing two byte strings one after the other is absorbing their
/// concatenation: a CRC may be computed in fragments.
pub proof fn law_crc_absorb_concat(crc: u32, a: Seq<u8>, b: Seq<u8>)
    ensures
        crc_absorb(crc_absorb(crc, a), b) == crc_absorb(crc, a + b),
    decreases b.len(),
{
    if b.len() == 0 {
        assert(a + b =~= a);
    } else {
        law_crc_absorb_concat(crc, a, b.drop_last());
        assert((a + b).drop_last() =~= a + b.drop_last());
        assert((a + b).last() == b.last());
    }
}

/// The register contribution of the low byte `v` of reflected CRC-32
/// (polynomial 0xEDB88320): the XOR of the standard table entries of its set
/// bits (entries 1, 2, 4, ..., 128 of the zlib table).
pub open spec fn byte_contribution(v: u32) -> u32 {
    (if v & 0x01u32 != 0 { 0x7707_3096u32 } else { 0u32 }) ^ (if v & 0x02u32 != 0 {
        0xee0e_612cu32
    } else {
        0u32
    }) ^ (if v & 0x04u32 != 0 { 0x076d_c419u32 } else { 0u32 }) ^ (if v & 0x08u32 != 0 {
        0x0edb_8832u32
    } else {
        0u32
    }) ^ (if v & 0x10u32 != 0 { 0x1db7_1064u32 } else { 0u32 }) ^ (if v & 0x20u32 != 0 {
        0x3b6e_20c8u32
    } else {
        0u32
    }) ^ (if v & 0x40u32 != 0 { 0x76dc_4190u32 } else { 0u32 }) ^ (if v & 0x80u32 != 0 {
        0xedb8_8320u32
    } else {
        0u32
    })
}

/// Eight reflected shifts written out.
spec fn shift8(x: u32) -> u32 {
    crc_shift(crc_shift(crc_shift(crc_shift(crc_shift(crc_shift(crc_shift(crc_shift(x))))))))
}

proof fn lemma_shifts_8(x: u32)
    ensures
        crc_shifts(x, 8) == shift8(x),
{
    reveal_with_fuel(crc_shifts, 9);
}

/// Absorbing a byte is the table-driven CRC-32 step: the register shifts
/// down one byte and takes the contribution of its low byte XORed with the
/// byte, which enters as exactly its eight bits.
pub proof fn law_crc_byte_is_table_step(crc: u32, byte: u8)
    ensures
        crc_byte(crc, byte) == (crc >> 8u32) ^ byte_contribution((crc ^ (byte as u32)) & 0xffu32),
{
    let x = crc ^ (byte as u32);
    lemma_shifts_8(x);
    assert(shift8(x) == (crc >> 8u32) ^ byte_contribution(x & 0xffu32)) by (bit_vector)
        requires
            x == crc ^ (byte as u32),
    ;
}

/// The CRC-32/ISO-HDLC check value of a byte at or above 0x80: the BPF exit
/// opcode 0x95.
pub proof fn law_crc_check_values()
    ensures
        crc32_spec(seq![0x95u8]) == 0x5267_8846u32,
{
    let s = seq![0x95u8];
    assert(s.drop_last() =~= Seq::<u8>::empty());
    assert(crc_absorb(0xffff_ffffu32, s.drop_last()) == 0xffff_ffffu32);
    assert(crc_absorb(0xffff_ffffu32, s) == crc_byte(0xffff_ffffu32, 0x95u8));
    law_crc_byte_is_table_step(0xffff_ffffu32, 0x95u8);
    assert(((0xffff_ffffu32 >> 8u32) ^ byte_contribution((0xffff_ffffu32 ^ (0x95u8 as u32))
        & 0xffu32)) ^ 0xffff_ffffu32 == 0x5267_8846u32) by (bit_vector);
}

/// CRC-32/ISO-HDLC of `bytes` (reflected, init and final XOR 0xFFFFFFFF).
pub fn crc32_iso_hdlc(bytes: &[u8]) -> (r: u32)
    ensures
        r == crc32_spec(bytes@),
{
    crc32_finish(crc32_update(0xffff_ffff, bytes))
}

/// Absorbs `bytes` into a running CRC register.
pub(crate) fn crc32_update(start: u32, bytes: &[u8]) -> (r: u32)
    ensures
        r == crc_absorb(start, bytes@),
{
    let mut crc = start;
    let mut index: usize = 0;
    while index < bytes.len()
        invariant
            index <= bytes@.len(),
            crc == crc_absorb(start, bytes@.take(index as int)),
        decreases bytes@.len() - index,
    {
        let ghost mixed = crc ^ (bytes@[index as int] as u32);
        crc = crc ^ (bytes[index] as u32);
        let mut bit: u32 = 0;
        while bit < 8
            invariant
                bit <= 8,
                crc == crc_shifts(mixed, bit as nat),
            decreases 8 - bit,
        {
            crc = if crc & 1 != 0 {
                (crc >> 1) ^ 0xedb8_8320
            } else {
                crc >> 1
            };
            bit += 1;
        }
        proof {
            assert(bytes@.take(index + 1).drop_last() =~= bytes@.take(index as int));
        }
        index += 1;
    }
    assert(bytes@.take(bytes@.len() as int) =~= bytes@);
    crc
}

pub(crate) fn crc32_finish(crc: u32) -> (r: u32)
    ensures
        r == crc ^ 0xffff_ffffu32,
{
    crc ^ 0xffff_ffff
}

} // verus!
