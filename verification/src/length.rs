use vstd::prelude::*;
use vstd::assert_seqs_equal;
use crate::error::Error;

verus! {

/// The largest magnitude a length prefix can carry: 2^31 - 1.
pub const MAX_MAGNITUDE: usize = 0x7FFF_FFFF;

/// The number of bytes of the canonical prefix form of magnitude `n`:
/// one byte below 128, otherwise four.
pub open spec fn prefix_size(n: int) -> int {
    if n < 128 {
        1
    } else {
        4
    }
}

/// The bytes of the prefix of magnitude `n` written in width `w`.
///
/// Width 1 is the bare magnitude in one byte; width 4 is the magnitude
/// big-endian with bit 31 forced to 1 as the discriminator.
pub open spec fn prefix_bytes_wide(n: u32, w: int) -> Seq<u8>
    recommends
        n <= MAX_MAGNITUDE,
        w == 1 || w == 4,
        w >= prefix_size(n as int),
{
    if w == 1 {
        seq![n as u8]
    } else {
        let m = n | 0x8000_0000;
        seq![
            (m >> 24) as u8,
            ((m >> 16) & 0xFF) as u8,
            ((m >> 8) & 0xFF) as u8,
            (m & 0xFF) as u8,
        ]
    }
}

/// The canonical prefix encoding of magnitude `n`.
pub open spec fn prefix_bytes(n: u32) -> Seq<u8>
    recommends
        n <= MAX_MAGNITUDE,
{
    prefix_bytes_wide(n, prefix_size(n as int))
}

/// The magnitude and the number of bytes consumed when a prefix is read
/// from the front of `bytes`; `None` when fewer bytes remain than the
/// indicated form requires.
pub open spec fn prefix_decode(bytes: Seq<u8>) -> Option<(u32, int)> {
    if bytes.len() == 0 {
        None
    } else if bytes[0] < 128 {
        Some((bytes[0] as u32, 1))
    } else if bytes.len() < 4 {
        None
    } else {
        let m = ((bytes[0] as u32) << 24) | ((bytes[1] as u32) << 16) | ((bytes[2] as u32) << 8)
            | (bytes[3] as u32);
        Some((m & 0x7FFF_FFFF, 4))
    }
}

/// Reading a prefix recovers the magnitude it was written with, in
/// either width, whatever follows it.
pub proof fn lemma_prefix_round_trip(n: u32, w: int, rest: Seq<u8>)
    requires
        n <= MAX_MAGNITUDE,
        w == 1 || w == 4,
        w >= prefix_size(n as int),
    ensures
        prefix_decode(prefix_bytes_wide(n, w) + rest) == Some((n, w)),
{
    let b = prefix_bytes_wide(n, w) + rest;
    if w == 1 {
        assert(b[0] == (n as u8));
        assert(n < 128);
        assert((n as u8) < 128 && ((n as u8) as u32) == n) by (bit_vector)
            requires
                n < 128,
        ;
    } else {
        let m = n | 0x8000_0000;
        assert(b[0] == (m >> 24) as u8);
        assert(b[1] == ((m >> 16) & 0xFF) as u8);
        assert(b[2] == ((m >> 8) & 0xFF) as u8);
        assert(b[3] == (m & 0xFF) as u8);
        assert(b.len() >= 4);
        assert((((n | 0x8000_0000) >> 24) as u8) >= 128) by (bit_vector);
        assert({
            let m = n | 0x8000_0000;
            (((((m >> 24) as u8) as u32) << 24) | ((((m >> 16) & 0xFF) as u8 as u32) << 16) | ((((
            m >> 8) & 0xFF) as u8 as u32) << 8) | ((m & 0xFF) as u8 as u32)) & 0x7FFF_FFFF == n
        }) by (bit_vector)
            requires
                n <= 0x7FFF_FFFF,
        ;
    }
}

/// The width of the canonical prefix form of `n`.
pub(crate) fn size_of_prefix(n: usize) -> (r: usize)
    requires
        n <= MAX_MAGNITUDE,
    ensures
        r as int == prefix_size(n as int),
        r == 1 || r == 4,
{
    if n < 128 {
        1
    } else {
        4
    }
}

/// Writes the prefix of magnitude `n` in width `w` into `target` at
/// position `at`, leaving every other byte unchanged.
pub(crate) fn write_prefix(target: &mut [u8], at: usize, n: usize, w: usize)
    requires
        n <= MAX_MAGNITUDE,
        w == 1 || w == 4,
        w as int >= prefix_size(n as int),
        at + w <= old(target)@.len(),
    ensures
        final(target)@.len() == old(target)@.len(),
        forall|i: int| 0 <= i < at ==> #[trigger] final(target)@[i] == old(target)@[i],
        forall|j: int|
            0 <= j < w ==> #[trigger] final(target)@[at + j] == prefix_bytes_wide(
                n as u32,
                w as int,
            )[j],
        forall|i: int|
            at + w <= i < old(target)@.len() ==> #[trigger] final(target)@[i] == old(target)@[i],
{
    if w == 1 {
        target[at] = n as u8;
    } else {
        let m: u32 = (n as u32) | 0x8000_0000;
        assert((m >> 24) < 256 && ((m >> 16) & 0xFF) < 256 && ((m >> 8) & 0xFF) < 256 && (m & 0xFF)
            < 256) by (bit_vector);
        target[at] = (m >> 24) as u8;
        target[at + 1] = ((m >> 16) & 0xFF) as u8;
        target[at + 2] = ((m >> 8) & 0xFF) as u8;
        target[at + 3] = (m & 0xFF) as u8;
    }
}

/// Reads a prefix from the front of `span`, reporting the magnitude and
/// the number of bytes it occupied.
pub(crate) fn read_prefix(span: &[u8]) -> (r: Result<(usize, usize), Error>)
    ensures
        r is Ok <==> prefix_decode(span@) is Some,
        r is Ok ==> prefix_decode(span@) == Some((r->Ok_0.0 as u32, r->Ok_0.1 as int)),
        r is Ok ==> r->Ok_0.0 <= MAX_MAGNITUDE && (r->Ok_0.1 == 1 || r->Ok_0.1 == 4),
        r is Err ==> r->Err_0 == Error::InsufficientData,
{
    if span.len() == 0 {
        return Err(Error::InsufficientData);
    }
    let header: u8 = span[0];
    if header < 128 {
        return Ok(((header as usize), 1));
    }
    if span.len() < 4 {
        return Err(Error::InsufficientData);
    }
    let m: u32 = ((span[0] as u32) << 24) | ((span[1] as u32) << 16) | ((span[2] as u32) << 8) | (
    span[3] as u32);
    let value: u32 = m & 0x7FFF_FFFF;
    assert((m & 0x7FFF_FFFF) <= 0x7FFF_FFFF) by (bit_vector);
    Ok(((value as usize), 4))
}

} // verus!
