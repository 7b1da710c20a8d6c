//! CRC-8 checksums over byte runs, and validation of checksummed word streams.
//!
//! The checksum is CRC-8 with polynomial `x^8 + x^5 + x^4 + 1` (`0x31`),
//! initial value `0xff`, no final XOR, input and output not reflected.
//! A checksummed stream is a run of triplets `[d0, d1, crc(d0, d1)]`.
use vstd::prelude::*;

verus! {

/// The generator polynomial, without its leading `x^8` term.
pub const CRC8_POLYNOMIAL: u8 = 0x31;

/// The value the checksum register starts from.
pub const CRC8_INIT: u8 = 0xff;

/// Errors which can happen when validating a checksummed stream.
#[derive(Debug, Clone, Copy, PartialEq, Eq, Structural)]
pub enum CrcError {
    /// CRC validation failed
    CrcError,
    /// Invalid length (not a multiple of 3)
    InvalidBufferSize,
}

/// One bit step of the register: shift left, folding in the polynomial
/// when the bit shifted out was set.
pub open spec fn crc_shift(c: u8) -> u8 {
    if c & 0x80u8 != 0 {
        ((c << 1u8) ^ CRC8_POLYNOMIAL) as u8
    } else {
        (c << 1u8) as u8
    }
}

/// `n` bit steps of the register.
pub open spec fn crc_shift_n(c: u8, n: nat) -> u8
    decreases n,
{
    if n == 0 {
        c
    } else {
        crc_shift(crc_shift_n(c, (n - 1) as nat))
    }
}

/// The register after feeding it one byte.
pub open spec fn crc_update(c: u8, b: u8) -> u8 {
    crc_shift_n(c ^ b, 8)
}

/// The CRC-8 checksum of a byte run.
pub open spec fn crc8(s: Seq<u8>) -> u8
    decreases s.len(),
{
    if s.len() == 0 {
        CRC8_INIT
    } else {
        crc_update(crc8(s.drop_last()), s.last())
    }
}

/// The checksum that protects the data word `[a, b]`.
pub open spec fn word_crc(a: u8, b: u8) -> u8 {
    crc8(seq![a, b])
}

/// The `k`-th triplet of `s` carries the checksum of its two data bytes.
pub open spec fn triplet_ok(s: Seq<u8>, k: int) -> bool {
    s[3 * k + 2] == word_crc(s[3 * k], s[3 * k + 1])
}

/// Every complete triplet of `s` carries the checksum of its data bytes.
pub open spec fn triplets_ok(s: Seq<u8>) -> bool {
    forall|k: int| 0 <= k < s.len() / 3 ==> #[trigger] triplet_ok(s, k)
}

/// The outcome of validating the stream `s`.
pub open spec fn validation(s: Seq<u8>) -> Result<(), CrcError> {
    if s.len() % 3 != 0 {
        Err(CrcError::InvalidBufferSize)
    } else if triplets_ok(s) {
        Ok(())
    } else {
        Err(CrcError::CrcError)
    }
}

/// Feeds one byte into the checksum register.
fn update(crc: u8, byte: u8) -> (r: u8)
    ensures
        r == crc_update(crc, byte),
{
    let ghost start: u8 = crc ^ byte;
    let mut c: u8 = crc ^ byte;
    let mut k: usize = 0;
    while k < 8
        invariant
            k <= 8,
            c == crc_shift_n(start, k as nat),
        decreases 8 - k,
    {
        if (c & 0x80) > 0 {
            c = (c << 1) ^ CRC8_POLYNOMIAL;
        } else {
            c = c << 1;
        }
        k += 1;
    }
    c
}

/// Calculate the CRC8 checksum.
pub fn calculate(data: &[u8]) -> (r: u8)
    ensures
        r == crc8(data@),
{
    let mut crc: u8 = CRC8_INIT;
    let mut i: usize = 0;
    while i < data.len()
        invariant
            i <= data@.len(),
            crc == crc8(data@.subrange(0, i as int)),
        decreases data@.len() - i,
    {
        proof {
            assert(data@.subrange(0, i + 1).drop_last() =~= data@.subrange(0, i as int));
        }
        crc = update(crc, data[i]);
        i += 1;
    }
    proof {
        assert(data@.subrange(0, data@.len() as int) =~= data@);
    }
    crc
}

/// The checksum of the data word `[a, b]`.
pub(crate) fn calculate_word(a: u8, b: u8) -> (r: u8)
    ensures
        r == word_crc(a, b),
{
    let word: [u8; 2] = [a, b];
    let r = calculate(&word);
    proof {
        assert(word@ =~= seq![a, b]);
    }
    r
}

/// Iterate over the provided buffer and validate the CRC8 checksums.
///
/// The buffer must be in the form of `[d0, d1, crc01, d2, d3, crc23, ...]` where every third byte
/// is the checksum byte of the previous two bytes.
/// A length that is not a multiple of 3 gives `InvalidBufferSize`; a wrong checksum gives
/// `CrcError`.
pub fn validate(buf: &[u8]) -> (r: Result<(), CrcError>)
    ensures
        r == validation(buf@),
{
    if buf.len() % 3 != 0 {
        return Err(CrcError::InvalidBufferSize);
    }
    let mut i: usize = 0;
    while i < buf.len()
        invariant
            buf@.len() % 3 == 0,
            i % 3 == 0,
            i <= buf@.len(),
            forall|k: int| 0 <= k < i / 3 ==> #[trigger] triplet_ok(buf@, k),
        decreases buf@.len() - i,
    {
        if calculate_word(buf[i], buf[i + 1]) != buf[i + 2] {
            proof {
                assert(!triplet_ok(buf@, (i / 3) as int));
            }
            return Err(CrcError::CrcError);
        }
        proof {
            assert(triplet_ok(buf@, (i / 3) as int));
        }
        i += 3;
    }
    Ok(())
}

/// Validating the empty stream succeeds, and a stream whose length is not a
/// multiple of 3 is always refused for its length, whatever its bytes.
pub proof fn lemma_validation_length(s: Seq<u8>)
    ensures
        validation(Seq::<u8>::empty()) == Ok::<(), CrcError>(()),
        s.len() % 3 != 0 ==> validation(s) == Err::<(), CrcError>(CrcError::InvalidBufferSize),
{
}

/// The checksum reproduces the test vectors of the sensor datasheets: `0xac`
/// for the single byte `0x00`, and `0x92` for the data word `[0xbe, 0xef]`;
/// so the triplet `[0xbe, 0xef, 0x92]` validates and `[0xbe, 0xef, 0x91]` does not.
pub proof fn lemma_datasheet_vectors()
    ensures
        crc8(seq![0x00u8]) == 0xacu8,
        word_crc(0xbeu8, 0xefu8) == 0x92u8,
        validation(seq![0xbeu8, 0xefu8, 0x92u8]) == Ok::<(), CrcError>(()),
        validation(seq![0xbeu8, 0xefu8, 0x91u8]) == Err::<(), CrcError>(CrcError::CrcError),
{
    reveal_with_fuel(crc_shift_n, 9);
    reveal_with_fuel(crc8, 3);
    assert(0xffu8 ^ 0x00u8 == 0xffu8) by (bit_vector);
    assert(crc_shift(0xffu8) == 0xcfu8) by {
        assert(0xffu8 & 0x80u8 != 0 && (0xffu8 << 1u8) ^ 0x31u8 == 0xcfu8) by (bit_vector);
    }
    assert(crc_shift(0xcfu8) == 0xafu8) by {
        assert(0xcfu8 & 0x80u8 != 0 && (0xcfu8 << 1u8) ^ 0x31u8 == 0xafu8) by (bit_vector);
    }
    assert(crc_shift(0xafu8) == 0x6fu8) by {
        assert(0xafu8 & 0x80u8 != 0 && (0xafu8 << 1u8) ^ 0x31u8 == 0x6fu8) by (bit_vector);
    }
    assert(crc_shift(0x6fu8) == 0xdeu8) by {
        assert(0x6fu8 & 0x80u8 == 0 && 0x6fu8 << 1u8 == 0xdeu8) by (bit_vector);
    }
    assert(crc_shift(0xdeu8) == 0x8du8) by {
        assert(0xdeu8 & 0x80u8 != 0 && (0xdeu8 << 1u8) ^ 0x31u8 == 0x8du8) by (bit_vector);
    }
    assert(crc_shift(0x8du8) == 0x2bu8) by {
        assert(0x8du8 & 0x80u8 != 0 && (0x8du8 << 1u8) ^ 0x31u8 == 0x2bu8) by (bit_vector);
    }
    assert(crc_shift(0x2bu8) == 0x56u8) by {
        assert(0x2bu8 & 0x80u8 == 0 && 0x2bu8 << 1u8 == 0x56u8) by (bit_vector);
    }
    assert(crc_shift(0x56u8) == 0xacu8) by {
        assert(0x56u8 & 0x80u8 == 0 && 0x56u8 << 1u8 == 0xacu8) by (bit_vector);
    }
    assert(crc_update(0xffu8, 0x00u8) == 0xacu8);
    assert(0xffu8 ^ 0xbeu8 == 0x41u8) by (bit_vector);
    assert(crc_shift(0x41u8) == 0x82u8) by {
        assert(0x41u8 & 0x80u8 == 0 && 0x41u8 << 1u8 == 0x82u8) by (bit_vector);
    }
    assert(crc_shift(0x82u8) == 0x35u8) by {
        assert(0x82u8 & 0x80u8 != 0 && (0x82u8 << 1u8) ^ 0x31u8 == 0x35u8) by (bit_vector);
    }
    assert(crc_shift(0x35u8) == 0x6au8) by {
        assert(0x35u8 & 0x80u8 == 0 && 0x35u8 << 1u8 == 0x6au8) by (bit_vector);
    }
    assert(crc_shift(0x6au8) == 0xd4u8) by {
        assert(0x6au8 & 0x80u8 == 0 && 0x6au8 << 1u8 == 0xd4u8) by (bit_vector);
    }
    assert(crc_shift(0xd4u8) == 0x99u8) by {
        assert(0xd4u8 & 0x80u8 != 0 && (0xd4u8 << 1u8) ^ 0x31u8 == 0x99u8) by (bit_vector);
    }
    assert(crc_shift(0x99u8) == 0x03u8) by {
        assert(0x99u8 & 0x80u8 != 0 && (0x99u8 << 1u8) ^ 0x31u8 == 0x03u8) by (bit_vector);
    }
    assert(crc_shift(0x03u8) == 0x06u8) by {
        assert(0x03u8 & 0x80u8 == 0 && 0x03u8 << 1u8 == 0x06u8) by (bit_vector);
    }
    assert(crc_shift(0x06u8) == 0x0cu8) by {
        assert(0x06u8 & 0x80u8 == 0 && 0x06u8 << 1u8 == 0x0cu8) by (bit_vector);
    }
    assert(crc_update(0xffu8, 0xbeu8) == 0x0cu8);
    assert(0x0cu8 ^ 0xefu8 == 0xe3u8) by (bit_vector);
    assert(crc_shift(0xe3u8) == 0xf7u8) by {
        assert(0xe3u8 & 0x80u8 != 0 && (0xe3u8 << 1u8) ^ 0x31u8 == 0xf7u8) by (bit_vector);
    }
    assert(crc_shift(0xf7u8) == 0xdfu8) by {
        assert(0xf7u8 & 0x80u8 != 0 && (0xf7u8 << 1u8) ^ 0x31u8 == 0xdfu8) by (bit_vector);
    }
    assert(crc_shift(0xdfu8) == 0x8fu8) by {
        assert(0xdfu8 & 0x80u8 != 0 && (0xdfu8 << 1u8) ^ 0x31u8 == 0x8fu8) by (bit_vector);
    }
    assert(crc_shift(0x8fu8) == 0x2fu8) by {
        assert(0x8fu8 & 0x80u8 != 0 && (0x8fu8 << 1u8) ^ 0x31u8 == 0x2fu8) by (bit_vector);
    }
    assert(crc_shift(0x2fu8) == 0x5eu8) by {
        assert(0x2fu8 & 0x80u8 == 0 && 0x2fu8 << 1u8 == 0x5eu8) by (bit_vector);
    }
    assert(crc_shift(0x5eu8) == 0xbcu8) by {
        assert(0x5eu8 & 0x80u8 == 0 && 0x5eu8 << 1u8 == 0xbcu8) by (bit_vector);
    }
    assert(crc_shift(0xbcu8) == 0x49u8) by {
        assert(0xbcu8 & 0x80u8 != 0 && (0xbcu8 << 1u8) ^ 0x31u8 == 0x49u8) by (bit_vector);
    }
    assert(crc_shift(0x49u8) == 0x92u8) by {
        assert(0x49u8 & 0x80u8 == 0 && 0x49u8 << 1u8 == 0x92u8) by (bit_vector);
    }
    assert(crc_update(0x0cu8, 0xefu8) == 0x92u8);
    assert(seq![0x00u8].drop_last() =~= Seq::<u8>::empty());
    assert(seq![0xbeu8, 0xefu8].drop_last() =~= seq![0xbeu8]);
    assert(seq![0xbeu8].drop_last() =~= Seq::<u8>::empty());
    let good = seq![0xbeu8, 0xefu8, 0x92u8];
    let bad = seq![0xbeu8, 0xefu8, 0x91u8];
    assert(triplet_ok(good, 0));
    assert(!triplet_ok(bad, 0));
}

} // verus!
