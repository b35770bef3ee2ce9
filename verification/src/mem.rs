//! Byte-buffer primitives matching the C library routines the kernel
//! exports to its linker: filling, copying and comparing runs of bytes.
//! The kernel build wraps these over raw memory; here they work on owned
//! buffers, so every access is bounds-checked.

use vstd::prelude::*;

verus! {

/// The comparison of `a` and `b` over `[i, n)`: zero when they agree,
/// and the difference at the first disagreeing byte otherwise.
pub open spec fn cmp_from(a: Seq<u8>, b: Seq<u8>, n: int, i: int) -> int
    decreases n - i,
{
    if i < 0 || i >= n {
        0
    } else if a[i] != b[i] {
        a[i] - b[i]
    } else {
        cmp_from(a, b, n, i + 1)
    }
}

/// Fills the first `num` bytes of `dest` with `value`'s low byte,
/// leaving the rest untouched.
pub fn memset(dest: &mut Vec<u8>, value: i32, num: usize)
    requires
        num <= old(dest)@.len(),
    ensures
        final(dest)@.len() == old(dest)@.len(),
        forall|k: int| 0 <= k < num ==> final(dest)@[k] == value as u8,
        forall|k: int| num <= k < final(dest)@.len() ==> final(dest)@[k] == old(dest)@[k],
{
    let byte: u8 = #[verifier::truncate] (value as u8);
    let mut i: usize = 0;
    while i < num
        invariant
            num <= dest@.len(),
            dest@.len() == old(dest)@.len(),
            i <= num,
            byte == value as u8,
            forall|k: int| 0 <= k < i ==> dest@[k] == value as u8,
            forall|k: int| i <= k < dest@.len() ==> dest@[k] == old(dest)@[k],
        decreases num - i,
    {
        dest.set(i, byte);
        i = i + 1;
    }
}

/// Copies the first `n` bytes of `src` over the start of `dest`, leaving
/// the rest of `dest` untouched.
pub fn memcpy(dest: &mut Vec<u8>, src: &Vec<u8>, n: usize)
    requires
        n <= old(dest)@.len(),
        n <= src@.len(),
    ensures
        final(dest)@.len() == old(dest)@.len(),
        forall|k: int| 0 <= k < n ==> final(dest)@[k] == src@[k],
        forall|k: int| n <= k < final(dest)@.len() ==> final(dest)@[k] == old(dest)@[k],
{
    let mut i: usize = 0;
    while i < n
        invariant
            n <= dest@.len(),
            n <= src@.len(),
            dest@.len() == old(dest)@.len(),
            i <= n,
            forall|k: int| 0 <= k < i ==> dest@[k] == src@[k],
            forall|k: int| i <= k < dest@.len() ==> dest@[k] == old(dest)@[k],
        decreases n - i,
    {
        let byte = src[i];
        dest.set(i, byte);
        i = i + 1;
    }
}

/// Compares the first `n` bytes of `s1` and `s2`: zero when they agree,
/// otherwise the difference at the first disagreeing byte.
pub fn memcmp(s1: &Vec<u8>, s2: &Vec<u8>, n: usize) -> (r: i32)
    requires
        n <= s1@.len(),
        n <= s2@.len(),
    ensures
        r == cmp_from(s1@, s2@, n as int, 0),
{
    let mut i: usize = 0;
    while i < n
        invariant
            n <= s1@.len(),
            n <= s2@.len(),
            i <= n,
            cmp_from(s1@, s2@, n as int, i as int) == cmp_from(s1@, s2@, n as int, 0),
        decreases n - i,
    {
        let a = s1[i];
        let b = s2[i];
        if a != b {
            return (a as i32) - (b as i32);
        }
        i = i + 1;
    }
    0
}

} // verus!
