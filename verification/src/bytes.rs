//! Small helpers on byte vectors.

use vstd::prelude::*;

verus! {

/// Appends `src` to `dst`.
pub fn append(dst: &mut Vec<u8>, src: &[u8])
    ensures
        final(dst)@ == old(dst)@ + src@,
{
    dst.extend_from_slice(src);
    assert(dst@ =~= old(dst)@ + src@);
}

/// `n` times the byte `value`.
pub open spec fn repeated(value: u8, n: nat) -> Seq<u8> {
    Seq::new(n, |i: int| value)
}

/// Appends `n` times the byte `value` to `dst`.
pub fn append_repeated(dst: &mut Vec<u8>, value: u8, n: usize)
    ensures
        final(dst)@ == old(dst)@ + repeated(value, n as nat),
{
    let mut i: usize = 0;
    while i < n
        invariant
            i <= n,
            dst@ == old(dst)@ + repeated(value, i as nat),
        decreases n - i,
    {
        dst.push(value);
        i = i + 1;
        assert(dst@ =~= old(dst)@ + repeated(value, i as nat));
    }
}

} // verus!
