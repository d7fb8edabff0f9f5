//! Helpers for byte strings, the representation of filenames, name tokens,
//! table names and emitted file contents throughout the pipeline.

use vstd::prelude::*;

verus! {

/// Appends all bytes of `s` to `out`.
pub fn push_bytes(out: &mut Vec<u8>, s: &[u8])
    ensures
        final(out)@ == old(out)@ + s@,
{
    let mut i: usize = 0;
    while i < s.len()
        invariant
            i <= s@.len(),
            out@ =~= old(out)@ + s@.take(i as int),
        decreases s@.len() - i,
    {
        out.push(s[i]);
        i = i + 1;
        proof {
            assert(out@ =~= old(out)@ + s@.take(i as int));
        }
    }
    proof {
        assert(s@.take(s@.len() as int) =~= s@);
        assert(out@ =~= old(out)@ + s@);
    }
}

/// Compares a byte string with a slice.
pub fn bytes_eq_slice(a: &Vec<u8>, b: &[u8]) -> (r: bool)
    ensures
        r == (a@ == b@),
{
    if a.len() != b.len() {
        proof {
            assert(a@.len() != b@.len());
        }
        return false;
    }
    let n = a.len();
    let mut i: usize = 0;
    while i < n
        invariant
            i <= n,
            n == a@.len() && n == b@.len(),
            forall|j: int| 0 <= j < i ==> a@[j] == b@[j],
        decreases n - i,
    {
        if a[i] != b[i] {
            return false;
        }
        i = i + 1;
    }
    proof {
        assert(a@ =~= b@);
    }
    true
}

/// Copies the first `n` bytes of a byte string.
pub fn copy_prefix(f: &Vec<u8>, n: usize) -> (r: Vec<u8>)
    requires
        n <= f@.len(),
    ensures
        r@ == f@.take(n as int),
{
    let mut r: Vec<u8> = Vec::new();
    let mut i: usize = 0;
    while i < n
        invariant
            i <= n <= f@.len(),
            r@ =~= f@.take(i as int),
        decreases n - i,
    {
        r.push(f[i]);
        i = i + 1;
        proof {
            assert(r@ =~= f@.take(i as int));
        }
    }
    proof {
        assert(r@ =~= f@.take(n as int));
    }
    r
}

/// Copies a whole byte string.
pub fn copy_bytes(f: &Vec<u8>) -> (r: Vec<u8>)
    ensures
        r@ == f@,
{
    let r = copy_prefix(f, f.len());
    proof {
        assert(f@.take(f@.len() as int) =~= f@);
    }
    r
}

} // verus!
