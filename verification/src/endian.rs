//! Big-endian encoding of 64-bit numbers.

use vstd::prelude::*;

verus! {

/// The number that eight bytes encode, most significant byte first.
pub open spec fn be_value(bytes: Seq<u8>) -> nat
    recommends
        bytes.len() == 8,
{
    (bytes[0] as nat) * 0x100_0000_0000_0000 + (bytes[1] as nat) * 0x1_0000_0000_0000 + (
    bytes[2] as nat) * 0x100_0000_0000 + (bytes[3] as nat) * 0x1_0000_0000 + (bytes[4] as nat)
        * 0x100_0000 + (bytes[5] as nat) * 0x1_0000 + (bytes[6] as nat) * 0x100 + (bytes[7] as nat)
}

/// The eight bytes that encode `value`, most significant byte first.
pub open spec fn be_bytes(value: u64) -> Seq<u8> {
    seq![
        (value / 0x100_0000_0000_0000) as u8,
        (value / 0x1_0000_0000_0000 % 0x100) as u8,
        (value / 0x100_0000_0000 % 0x100) as u8,
        (value / 0x1_0000_0000 % 0x100) as u8,
        (value / 0x100_0000 % 0x100) as u8,
        (value / 0x1_0000 % 0x100) as u8,
        (value / 0x100 % 0x100) as u8,
        (value % 0x100) as u8,
    ]
}

/// Eight bytes encode a number that fits 64 bits.
pub proof fn lemma_be_value_fits(bytes: Seq<u8>)
    ensures
        be_value(bytes) <= u64::MAX,
{
}

/// Decoding undoes encoding.
pub proof fn lemma_be_round_trip(value: u64)
    ensures
        be_bytes(value).len() == 8,
        be_value(be_bytes(value)) == value,
{
    let v = value;
    assert(v / 0x100_0000_0000_0000 < 0x100) by (bit_vector);
    assert((v / 0x100_0000_0000_0000) * 0x100_0000_0000_0000 + (v / 0x1_0000_0000_0000 % 0x100)
        * 0x1_0000_0000_0000 + (v / 0x100_0000_0000 % 0x100) * 0x100_0000_0000 + (v / 0x1_0000_0000
        % 0x100) * 0x1_0000_0000 + (v / 0x100_0000 % 0x100) * 0x100_0000 + (v / 0x1_0000 % 0x100)
        * 0x1_0000 + (v / 0x100 % 0x100) * 0x100 + v % 0x100 == v) by (bit_vector);
}

/// Encoding undoes decoding: eight bytes are the encoding of the number they
/// encode, so two runs of eight bytes that encode one number are equal.
pub proof fn lemma_be_unique(bytes: Seq<u8>)
    requires
        bytes.len() == 8,
    ensures
        be_bytes(be_value(bytes) as u64) == bytes,
{
    let b0 = bytes[0] as u64;
    let b1 = bytes[1] as u64;
    let b2 = bytes[2] as u64;
    let b3 = bytes[3] as u64;
    let b4 = bytes[4] as u64;
    let b5 = bytes[5] as u64;
    let b6 = bytes[6] as u64;
    let b7 = bytes[7] as u64;
    let v = (b0 * 0x100_0000_0000_0000 + b1 * 0x1_0000_0000_0000 + b2 * 0x100_0000_0000 + b3
        * 0x1_0000_0000 + b4 * 0x100_0000 + b5 * 0x1_0000 + b6 * 0x100 + b7) as u64;
    assert(v == be_value(bytes));
    assert(v / 0x100_0000_0000_0000 == b0 && v / 0x1_0000_0000_0000 % 0x100 == b1 && v
        / 0x100_0000_0000 % 0x100 == b2 && v / 0x1_0000_0000 % 0x100 == b3 && v / 0x100_0000 % 0x100
        == b4 && v / 0x1_0000 % 0x100 == b5 && v / 0x100 % 0x100 == b6 && v % 0x100 == b7)
        by (bit_vector)
        requires
            b0 < 256,
            b1 < 256,
            b2 < 256,
            b3 < 256,
            b4 < 256,
            b5 < 256,
            b6 < 256,
            b7 < 256,
            v == b0 * 0x100_0000_0000_0000 + b1 * 0x1_0000_0000_0000 + b2 * 0x100_0000_0000 + b3
                * 0x1_0000_0000 + b4 * 0x100_0000 + b5 * 0x1_0000 + b6 * 0x100 + b7,
    ;
    assert(be_bytes(v) =~= bytes);
}

/// Encode a number as eight bytes, most significant byte first.
pub fn encode_u64(value: u64) -> (bytes: [u8; 8])
    ensures
        bytes@ == be_bytes(value),
{
    let bytes = [
        (value >> 56) as u8,
        (value >> 48) as u8,
        (value >> 40) as u8,
        (value >> 32) as u8,
        (value >> 24) as u8,
        (value >> 16) as u8,
        (value >> 8) as u8,
        value as u8,
    ];
    assert(bytes@ =~= be_bytes(value)) by {
        assert((value >> 56) as u8 == (value / 0x100_0000_0000_0000) as u8) by (bit_vector);
        assert((value >> 48) as u8 == (value / 0x1_0000_0000_0000 % 0x100) as u8) by (bit_vector);
        assert((value >> 40) as u8 == (value / 0x100_0000_0000 % 0x100) as u8) by (bit_vector);
        assert((value >> 32) as u8 == (value / 0x1_0000_0000 % 0x100) as u8) by (bit_vector);
        assert((value >> 24) as u8 == (value / 0x100_0000 % 0x100) as u8) by (bit_vector);
        assert((value >> 16) as u8 == (value / 0x1_0000 % 0x100) as u8) by (bit_vector);
        assert((value >> 8) as u8 == (value / 0x100 % 0x100) as u8) by (bit_vector);
        assert(value as u8 == (value % 0x100) as u8) by (bit_vector);
    }
    bytes
}

/// Decode a number from eight bytes, most significant byte first.
pub fn decode_u64(bytes: &[u8; 8]) -> (value: u64)
    ensures
        value == be_value(bytes@),
{
    let b0 = bytes[0] as u64;
    let b1 = bytes[1] as u64;
    let b2 = bytes[2] as u64;
    let b3 = bytes[3] as u64;
    let b4 = bytes[4] as u64;
    let b5 = bytes[5] as u64;
    let b6 = bytes[6] as u64;
    let b7 = bytes[7] as u64;
    assert((b0 << 56 | b1 << 48 | b2 << 40 | b3 << 32 | b4 << 24 | b5 << 16 | b6 << 8 | b7)
        == b0 * 0x100_0000_0000_0000 + b1 * 0x1_0000_0000_0000 + b2 * 0x100_0000_0000 + b3
        * 0x1_0000_0000 + b4 * 0x100_0000 + b5 * 0x1_0000 + b6 * 0x100 + b7) by (bit_vector)
        requires
            b0 < 256,
            b1 < 256,
            b2 < 256,
            b3 < 256,
            b4 < 256,
            b5 < 256,
            b6 < 256,
            b7 < 256,
    ;
    b0 << 56 | b1 << 48 | b2 << 40 | b3 << 32 | b4 << 24 | b5 << 16 | b6 << 8 | b7
}

} // verus!
