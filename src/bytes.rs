//! Byte-buffer helpers shared by the handles: clipped copies and decimal
//! numerals.
use vstd::prelude::*;

verus! {

pub open spec fn min(a: int, b: int) -> int {
    if a <= b {
        a
    } else {
        b
    }
}

/// `dst` after its first `min(dst.len(), src.len())` bytes were taken from `src`.
pub open spec fn clipped(dst: Seq<u8>, src: Seq<u8>) -> Seq<u8> {
    let n = min(dst.len() as int, src.len() as int);
    src.take(n) + dst.skip(n)
}

/// Copies the longest common prefix length of bytes from `src` into `dst`
/// and returns that length.
pub fn copy_clipped(dst: &mut [u8], src: &[u8]) -> (n: usize)
    ensures
        n == min(old(dst)@.len() as int, src@.len() as int),
        final(dst)@ == clipped(old(dst)@, src@),
{
    let mut i: usize = 0;
    while i < dst.len() && i < src.len()
        invariant
            i <= old(dst)@.len(),
            i <= src@.len(),
            dst@.len() == old(dst)@.len(),
            dst@ == src@.take(i as int) + old(dst)@.skip(i as int),
        decreases src@.len() - i,
    {
        dst[i] = src[i];
        i += 1;
        proof {
            assert(dst@ =~= src@.take(i as int) + old(dst)@.skip(i as int));
        }
    }
    i
}

/// Overwrites the first `min(dst.len(), src.len())` bytes of a vector with
/// `src` and returns how many were written.
pub fn overwrite_clipped(dst: &mut Vec<u8>, src: &[u8]) -> (n: usize)
    ensures
        n == min(old(dst)@.len() as int, src@.len() as int),
        final(dst)@ == clipped(old(dst)@, src@),
{
    let mut i: usize = 0;
    while i < dst.len() && i < src.len()
        invariant
            i <= old(dst)@.len(),
            i <= src@.len(),
            dst@.len() == old(dst)@.len(),
            dst@ == src@.take(i as int) + old(dst)@.skip(i as int),
        decreases src@.len() - i,
    {
        dst.set(i, src[i]);
        i += 1;
        proof {
            assert(dst@ =~= src@.take(i as int) + old(dst)@.skip(i as int));
        }
    }
    i
}

/// Appends `src[from..]` to `out`.
pub fn append_tail(out: &mut Vec<u8>, src: &[u8], from: usize)
    requires
        from <= src@.len(),
    ensures
        final(out)@ == old(out)@ + src@.skip(from as int),
{
    let mut i: usize = from;
    while i < src.len()
        invariant
            from <= i <= src@.len(),
            out@ == old(out)@ + src@.subrange(from as int, i as int),
        decreases src@.len() - i,
    {
        out.push(src[i]);
        i += 1;
        proof {
            assert(out@ =~= old(out)@ + src@.subrange(from as int, i as int));
        }
    }
    proof {
        assert(src@.subrange(from as int, src@.len() as int) =~= src@.skip(from as int));
    }
}

/// The decimal numeral of `n`, in ASCII digits, without leading zeros.
pub open spec fn decimal(n: nat) -> Seq<u8>
    decreases n,
{
    if n < 10 {
        seq![(48 + n) as u8]
    } else {
        decimal(n / 10).push((48 + n % 10) as u8)
    }
}

/// Appends the decimal numeral of `n` to `v`.
pub fn push_decimal(v: &mut Vec<u8>, n: usize)
    ensures
        final(v)@ == old(v)@ + decimal(n as nat),
    decreases n,
{
    if n >= 10 {
        push_decimal(v, n / 10);
    }
    v.push((48 + n % 10) as u8);
    proof {
        if n < 10 {
            assert(final(v)@ =~= old(v)@ + decimal(n as nat));
        } else {
            assert(final(v)@ =~= old(v)@ + decimal(n as nat));
        }
    }
}

} // verus!
