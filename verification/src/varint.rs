//! QUIC variable-length integer encoding.
//!
//! A value below `2^62` is written in 1, 2, 4 or 8 bytes; the two top bits
//! of the first byte give the width, the rest is the value in network order.

use vstd::prelude::*;

verus! {

/// The largest value a variable-length integer can carry: `2^62 - 1`.
pub const VARINT_MAX: u64 = 0x3fff_ffff_ffff_ffff;

/// How many bytes the encoding of `n` takes.
pub open spec fn varint_len(n: u64) -> nat {
    if n < 0x40 {
        1
    } else if n < 0x4000 {
        2
    } else if n < 0x4000_0000 {
        4
    } else {
        8
    }
}

/// The exact encoding of `n`: width prefix in the two top bits of the first
/// byte, then the value big-endian.
pub open spec fn varint_bytes(n: u64) -> Seq<u8> {
    if n < 0x40 {
        seq![n as u8]
    } else if n < 0x4000 {
        seq![(0x40 + n / 0x100) as u8, (n % 0x100) as u8]
    } else if n < 0x4000_0000 {
        seq![
            (0x80 + n / 0x100_0000) as u8,
            ((n / 0x1_0000) % 0x100) as u8,
            ((n / 0x100) % 0x100) as u8,
            (n % 0x100) as u8,
        ]
    } else {
        seq![
            (0xC0 + n / 0x100_0000_0000_0000) as u8,
            ((n / 0x1_0000_0000_0000) % 0x100) as u8,
            ((n / 0x100_0000_0000) % 0x100) as u8,
            ((n / 0x1_0000_0000) % 0x100) as u8,
            ((n / 0x100_0000) % 0x100) as u8,
            ((n / 0x1_0000) % 0x100) as u8,
            ((n / 0x100) % 0x100) as u8,
            (n % 0x100) as u8,
        ]
    }
}

/// The encoded width of `n`, as a run-time value.
pub fn varint_length(n: u64) -> (l: usize)
    ensures
        l == varint_len(n),
{
    if n < 0x40 {
        1
    } else if n < 0x4000 {
        2
    } else if n < 0x4000_0000 {
        4
    } else {
        8
    }
}

/// Appends the encoding of `n` to `buf`.
pub fn encode_varint(buf: &mut Vec<u8>, n: u64)
    requires
        n <= VARINT_MAX,
    ensures
        final(buf)@ == old(buf)@ + varint_bytes(n),
{
    if n < 0x40 {
        buf.push(n as u8);
    } else if n < 0x4000 {
        buf.push((0x40 + n / 0x100) as u8);
        buf.push((n % 0x100) as u8);
    } else if n < 0x4000_0000 {
        buf.push((0x80 + n / 0x100_0000) as u8);
        buf.push(((n / 0x1_0000) % 0x100) as u8);
        buf.push(((n / 0x100) % 0x100) as u8);
        buf.push((n % 0x100) as u8);
    } else {
        buf.push((0xC0 + n / 0x100_0000_0000_0000) as u8);
        buf.push(((n / 0x1_0000_0000_0000) % 0x100) as u8);
        buf.push(((n / 0x100_0000_0000) % 0x100) as u8);
        buf.push(((n / 0x1_0000_0000) % 0x100) as u8);
        buf.push(((n / 0x100_0000) % 0x100) as u8);
        buf.push(((n / 0x1_0000) % 0x100) as u8);
        buf.push(((n / 0x100) % 0x100) as u8);
        buf.push((n % 0x100) as u8);
    }
    assert(buf@ =~= old(buf)@ + varint_bytes(n));
}

} // verus!
