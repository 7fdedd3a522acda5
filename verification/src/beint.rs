//! Big-endian byte layouts of the fixed-width integer fields that the
//! wire format carries, with executable readers and writers proved
//! against them.

use vstd::prelude::*;

verus! {

/// The eight bytes of `x`, most significant first.
pub open spec fn u64_be_bytes(x: u64) -> Seq<u8> {
    seq![
        ((x >> 56) & 0xFF) as u8,
        ((x >> 48) & 0xFF) as u8,
        ((x >> 40) & 0xFF) as u8,
        ((x >> 32) & 0xFF) as u8,
        ((x >> 24) & 0xFF) as u8,
        ((x >> 16) & 0xFF) as u8,
        ((x >> 8) & 0xFF) as u8,
        (x & 0xFF) as u8,
    ]
}

/// The value of eight bytes read most significant first.
pub open spec fn u64_from_be(s: Seq<u8>) -> u64
    recommends
        s.len() == 8,
{
    ((s[0] as u64) << 56) | ((s[1] as u64) << 48) | ((s[2] as u64) << 40) | ((s[3] as u64) << 32)
        | ((s[4] as u64) << 24) | ((s[5] as u64) << 16) | ((s[6] as u64) << 8) | (s[7] as u64)
}

/// The two bytes of `x`, most significant first.
pub open spec fn u16_be_bytes(x: u16) -> Seq<u8> {
    seq![((x >> 8) & 0xFF) as u8, (x & 0xFF) as u8]
}

/// The value of two bytes read most significant first.
pub open spec fn u16_from_be(s: Seq<u8>) -> u16
    recommends
        s.len() == 2,
{
    ((s[0] as u16) << 8) | (s[1] as u16)
}

/// Reading back the big-endian bytes of a 64-bit value yields the value.
pub proof fn lemma_u64_be_round_trip(x: u64)
    ensures
        u64_from_be(u64_be_bytes(x)) == x,
{
    let s = u64_be_bytes(x);
    let b0 = s[0];
    let b1 = s[1];
    let b2 = s[2];
    let b3 = s[3];
    let b4 = s[4];
    let b5 = s[5];
    let b6 = s[6];
    let b7 = s[7];
    assert(((b0 as u64) << 56) | ((b1 as u64) << 48) | ((b2 as u64) << 40) | ((b3 as u64) << 32)
        | ((b4 as u64) << 24) | ((b5 as u64) << 16) | ((b6 as u64) << 8) | (b7 as u64) == x)
        by (bit_vector)
        requires
            b0 == ((x >> 56) & 0xFF) as u8,
            b1 == ((x >> 48) & 0xFF) as u8,
            b2 == ((x >> 40) & 0xFF) as u8,
            b3 == ((x >> 32) & 0xFF) as u8,
            b4 == ((x >> 24) & 0xFF) as u8,
            b5 == ((x >> 16) & 0xFF) as u8,
            b6 == ((x >> 8) & 0xFF) as u8,
            b7 == (x & 0xFF) as u8,
    ;
}

/// Reading back the big-endian bytes of a 16-bit value yields the value.
pub proof fn lemma_u16_be_round_trip(x: u16)
    ensures
        u16_from_be(u16_be_bytes(x)) == x,
{
    let s = u16_be_bytes(x);
    let b0 = s[0];
    let b1 = s[1];
    assert(((b0 as u16) << 8) | (b1 as u16) == x) by (bit_vector)
        requires
            b0 == ((x >> 8) & 0xFF) as u8,
            b1 == (x & 0xFF) as u8,
    ;
}

/// Appends the big-endian bytes of `x`.
pub fn push_u64_be(out: &mut Vec<u8>, x: u64)
    ensures
        final(out)@ == old(out)@ + u64_be_bytes(x),
{
    proof {
        assert((x >> 56) & 0xFF <= 0xFF && (x >> 48) & 0xFF <= 0xFF && (x >> 40) & 0xFF <= 0xFF
            && (x >> 32) & 0xFF <= 0xFF && (x >> 24) & 0xFF <= 0xFF && (x >> 16) & 0xFF <= 0xFF
            && (x >> 8) & 0xFF <= 0xFF && x & 0xFF <= 0xFF) by (bit_vector);
    }
    out.push(((x >> 56) & 0xFF) as u8);
    out.push(((x >> 48) & 0xFF) as u8);
    out.push(((x >> 40) & 0xFF) as u8);
    out.push(((x >> 32) & 0xFF) as u8);
    out.push(((x >> 24) & 0xFF) as u8);
    out.push(((x >> 16) & 0xFF) as u8);
    out.push(((x >> 8) & 0xFF) as u8);
    out.push((x & 0xFF) as u8);
    proof {
        assert(out@ =~= old(out)@ + u64_be_bytes(x));
    }
}

/// Appends the big-endian bytes of `x`.
pub fn push_u16_be(out: &mut Vec<u8>, x: u16)
    ensures
        final(out)@ == old(out)@ + u16_be_bytes(x),
{
    proof {
        assert((x >> 8) & 0xFF <= 0xFF && x & 0xFF <= 0xFF) by (bit_vector);
    }
    out.push(((x >> 8) & 0xFF) as u8);
    out.push((x & 0xFF) as u8);
    proof {
        assert(out@ =~= old(out)@ + u16_be_bytes(x));
    }
}

/// Reads the 64-bit big-endian field starting at `off`.
pub fn read_u64_be(s: &[u8], off: usize) -> (x: u64)
    requires
        off + 8 <= s@.len(),
    ensures
        x == u64_from_be(s@.subrange(off as int, off as int + 8)),
{
    let x = ((s[off] as u64) << 56) | ((s[off + 1] as u64) << 48) | ((s[off + 2] as u64) << 40)
        | ((s[off + 3] as u64) << 32) | ((s[off + 4] as u64) << 24) | ((s[off + 5] as u64) << 16)
        | ((s[off + 6] as u64) << 8) | (s[off + 7] as u64);
    proof {
        let sub = s@.subrange(off as int, off as int + 8);
        assert(sub[0] == s@[off as int] && sub[1] == s@[off as int + 1] && sub[2] == s@[off as int
            + 2] && sub[3] == s@[off as int + 3] && sub[4] == s@[off as int + 4] && sub[5]
            == s@[off as int + 5] && sub[6] == s@[off as int + 6] && sub[7] == s@[off as int + 7]);
    }
    x
}

/// Reads the 16-bit big-endian field starting at `off`.
pub fn read_u16_be(s: &[u8], off: usize) -> (x: u16)
    requires
        off + 2 <= s@.len(),
    ensures
        x == u16_from_be(s@.subrange(off as int, off as int + 2)),
{
    let x = ((s[off] as u16) << 8) | (s[off + 1] as u16);
    proof {
        let sub = s@.subrange(off as int, off as int + 2);
        assert(sub[0] == s@[off as int] && sub[1] == s@[off as int + 1]);
    }
    x
}

} // verus!
