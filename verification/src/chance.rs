use vstd::prelude::*;

verus! {

/// A random index below `n`.
///
/// Trusted: `fastrand::usize(0..n)` draws from the thread's generator a
/// number in `0..n`; it panics on an empty range, which `n > 0` rules out.
/// Which number comes out is left open: it depends on the generator's state.
#[verifier::external_body]
pub(crate) fn random_index(n: usize) -> (r: usize)
    requires
        n > 0,
    ensures
        r < n,
{
    fastrand::usize(0..n)
}

} // verus!
