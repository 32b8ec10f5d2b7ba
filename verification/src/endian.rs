//! Little-endian numbers: the bytes of a number and the number of some
//! bytes.

use vstd::prelude::*;

verus! {

/// The four bytes of a 32-bit word, least significant first.
pub open spec fn le_bytes(word: nat) -> Seq<u8> {
    seq![
        (word % 0x100) as u8,
        ((word / 0x100) % 0x100) as u8,
        ((word / 0x1_0000) % 0x100) as u8,
        ((word / 0x100_0000) % 0x100) as u8,
    ]
}

/// The four bytes of a 32-bit field, least significant first.
pub open spec fn le32(x: u32) -> Seq<u8> {
    le_bytes(x as nat)
}

/// The eight bytes of a 64-bit field, least significant first.
pub open spec fn le64(x: nat) -> Seq<u8> {
    seq![
        (x % 0x100) as u8,
        ((x / 0x100) % 0x100) as u8,
        ((x / 0x1_0000) % 0x100) as u8,
        ((x / 0x100_0000) % 0x100) as u8,
        ((x / 0x1_0000_0000) % 0x100) as u8,
        ((x / 0x100_0000_0000) % 0x100) as u8,
        ((x / 0x1_0000_0000_0000) % 0x100) as u8,
        ((x / 0x100_0000_0000_0000) % 0x100) as u8,
    ]
}

/// The number that two bytes stand for, least significant first.
pub open spec fn value16(bytes: Seq<u8>) -> nat {
    (bytes[0] + 0x100 * bytes[1]) as nat
}

/// The number that four bytes stand for, least significant first.
pub open spec fn value32(bytes: Seq<u8>) -> nat {
    (bytes[0] + 0x100 * bytes[1] + 0x1_0000 * bytes[2] + 0x100_0000 * bytes[3]) as nat
}

/// The number that eight bytes stand for, least significant first.
pub open spec fn value64(bytes: Seq<u8>) -> nat {
    (bytes[0] + 0x100 * bytes[1] + 0x1_0000 * bytes[2] + 0x100_0000 * bytes[3] + 0x1_0000_0000
        * bytes[4] + 0x100_0000_0000 * bytes[5] + 0x1_0000_0000_0000 * bytes[6]
        + 0x100_0000_0000_0000 * bytes[7]) as nat
}

/// A 32-bit field reads back as the number that was written.
pub proof fn lemma_value_of_le32(x: u32)
    ensures
        le32(x).len() == 4,
        value32(le32(x)) == x,
{
}

/// A 64-bit number is the sum of its eight base-256 digits.
proof fn lemma_digits_of_u64(x: u64)
    by (bit_vector)
    ensures
        x == (x % 0x100) + 0x100 * ((x / 0x100) % 0x100) + 0x1_0000 * ((x / 0x1_0000) % 0x100)
            + 0x100_0000 * ((x / 0x100_0000) % 0x100) + 0x1_0000_0000 * ((x / 0x1_0000_0000)
            % 0x100) + 0x100_0000_0000 * ((x / 0x100_0000_0000) % 0x100) + 0x1_0000_0000_0000 * ((x
            / 0x1_0000_0000_0000) % 0x100) + 0x100_0000_0000_0000 * ((x / 0x100_0000_0000_0000)
            % 0x100),
{
}

/// A 64-bit field reads back as the number that was written.
pub proof fn lemma_value_of_le64(x: nat)
    requires
        x <= u64::MAX,
    ensures
        le64(x).len() == 8,
        value64(le64(x)) == x,
{
    lemma_digits_of_u64(x as u64);
}

} // verus!
