//! Big-endian integer readers over byte sequences, and small byte-vector
//! helpers. The wire format of the ledger stores every integer in
//! big-endian order.

use vstd::prelude::*;

verus! {

/// The unsigned 32-bit value stored big-endian at offset `i` of `b`.
pub open spec fn be_u32_at(b: Seq<u8>, i: int) -> int
    recommends
        0 <= i,
        i + 4 <= b.len(),
{
    b[i] * 0x1000000 + b[i + 1] * 0x10000 + b[i + 2] * 0x100 + b[i + 3]
}

/// The unsigned 64-bit value stored big-endian at offset `i` of `b`.
pub open spec fn be_u64_at(b: Seq<u8>, i: int) -> int
    recommends
        0 <= i,
        i + 8 <= b.len(),
{
    b[i] * 0x100000000000000 + b[i + 1] * 0x1000000000000 + b[i + 2] * 0x10000000000
        + b[i + 3] * 0x100000000 + b[i + 4] * 0x1000000 + b[i + 5] * 0x10000 + b[i + 6] * 0x100
        + b[i + 7]
}

/// The signed 64-bit value whose unsigned two's-complement image is `u`.
pub open spec fn as_signed_64(u: int) -> int
    recommends
        0 <= u < 0x10000000000000000,
{
    if u < 0x8000000000000000 {
        u
    } else {
        u - 0x10000000000000000
    }
}

/// Reads the big-endian 32-bit integer at offset `i`.
pub fn read_u32_at(b: &[u8], i: usize) -> (r: u32)
    requires
        i + 4 <= b@.len(),
    ensures
        r == be_u32_at(b@, i as int),
{
    let b0 = b[i] as u32;
    let b1 = b[i + 1] as u32;
    let b2 = b[i + 2] as u32;
    let b3 = b[i + 3] as u32;
    b0 * 0x1000000 + b1 * 0x10000 + b2 * 0x100 + b3
}

/// Reads the big-endian 64-bit integer at offset `i`.
pub fn read_u64_at(b: &[u8], i: usize) -> (r: u64)
    requires
        i + 8 <= b@.len(),
    ensures
        r == be_u64_at(b@, i as int),
{
    let b0 = b[i] as u64;
    let b1 = b[i + 1] as u64;
    let b2 = b[i + 2] as u64;
    let b3 = b[i + 3] as u64;
    let b4 = b[i + 4] as u64;
    let b5 = b[i + 5] as u64;
    let b6 = b[i + 6] as u64;
    let b7 = b[i + 7] as u64;
    b0 * 0x100000000000000 + b1 * 0x1000000000000 + b2 * 0x10000000000 + b3 * 0x100000000 + b4
        * 0x1000000 + b5 * 0x10000 + b6 * 0x100 + b7
}

/// Reinterprets an unsigned 64-bit value as the signed value with the
/// same two's-complement image.
pub fn signed_of_u64(u: u64) -> (r: i64)
    ensures
        r as int == as_signed_64(u as int),
{
    if u < 0x8000000000000000 {
        u as i64
    } else {
        let d = (u - 0x8000000000000000) as i64;
        -0x7FFFFFFFFFFFFFFF - 1 + d
    }
}

/// Compares two byte slices for equality of contents.
pub fn bytes_eq(a: &[u8], b: &[u8]) -> (r: bool)
    ensures
        r <==> a@ == b@,
{
    if a.len() != b.len() {
        proof {
            assert(a@.len() != b@.len());
        }
        return false;
    }
    let n = a.len();
    let mut i: usize = 0;
    while i < n
        invariant
            n == a@.len() == b@.len(),
            0 <= i <= n,
            forall|j: int| 0 <= j < i ==> a@[j] == b@[j],
        decreases n - i,
    {
        if a[i] != b[i] {
            return false;
        }
        i = i + 1;
    }
    proof {
        assert(a@ =~= b@);
    }
    true
}

/// Copies a byte vector.
pub fn copy_bytes(v: &Vec<u8>) -> (r: Vec<u8>)
    ensures
        r@ == v@,
{
    let mut out: Vec<u8> = Vec::new();
    let n = v.len();
    let mut i: usize = 0;
    while i < n
        invariant
            n == v@.len(),
            0 <= i <= n,
            out@ == v@.take(i as int),
        decreases n - i,
    {
        out.push(v[i]);
        proof {
            assert(out@ =~= v@.take(i + 1));
        }
        i = i + 1;
    }
    proof {
        assert(v@.take(n as int) =~= v@);
    }
    out
}

/// Copies the byte range `[from, to)` of a slice into a fresh vector.
pub fn copy_range(b: &[u8], from: usize, to: usize) -> (r: Vec<u8>)
    requires
        from <= to <= b@.len(),
    ensures
        r@ == b@.subrange(from as int, to as int),
{
    let mut out: Vec<u8> = Vec::new();
    let mut i: usize = from;
    while i < to
        invariant
            from <= i <= to <= b@.len(),
            out@ == b@.subrange(from as int, i as int),
        decreases to - i,
    {
        out.push(b[i]);
        proof {
            assert(out@ =~= b@.subrange(from as int, i + 1));
        }
        i = i + 1;
    }
    out
}

/// Appends the contents of a byte slice to a vector.
pub fn append_bytes(out: &mut Vec<u8>, b: &[u8])
    ensures
        final(out)@ == old(out)@ + b@,
{
    let n = b.len();
    let mut i: usize = 0;
    while i < n
        invariant
            n == b@.len(),
            0 <= i <= n,
            out@ == old(out)@ + b@.take(i as int),
        decreases n - i,
    {
        out.push(b[i]);
        proof {
            assert(out@ =~= old(out)@ + b@.take(i + 1));
        }
        i = i + 1;
    }
    proof {
        assert(old(out)@ + b@.take(n as int) =~= old(out)@ + b@);
    }
}

} // verus!
