//! Byte counts that saturate at `usize::MAX`.
//!
//! The sizes that a texture header implies are products of 32-bit fields and
//! can exceed any machine word. A count that large is never reached by a
//! payload that is held in memory, so the decoders compute with counts capped
//! at `usize::MAX`: below the cap a capped count is exact.

use vstd::prelude::*;

verus! {

/// `x` where it fits in a `usize`, and `usize::MAX` above that.
pub open spec fn capped(x: int) -> usize {
    if x < 0 {
        0
    } else if x >= usize::MAX {
        usize::MAX
    } else {
        x as usize
    }
}

/// `x` rounded up to a multiple of `pad`; a `pad` of 0 or 1 leaves `x` as it
/// is.
pub open spec fn padded(x: nat, pad: nat) -> nat {
    if pad <= 1 || x % pad == 0 {
        x
    } else {
        (x + pad - x % pad) as nat
    }
}

/// Capping the factors first does not change a capped product.
pub proof fn lemma_capped_mul(x: nat, y: nat)
    ensures
        capped(capped(x as int) * capped(y as int)) == capped((x * y) as int),
{
    let m = usize::MAX as int;
    let cx = capped(x as int) as int;
    let cy = capped(y as int) as int;
    if x >= m || y >= m {
        if x == 0 || y == 0 {
            assert(cx * cy == 0 && x * y == 0) by (nonlinear_arith)
                requires
                    (x == 0 && cx == 0) || (y == 0 && cy == 0),
            ;
        } else {
            assert(cx * cy >= m && x * y >= m) by (nonlinear_arith)
                requires
                    (cx == m && cy >= 1 && x >= m && y >= 1) || (cy == m && cx >= 1 && y >= m && x
                        >= 1),
                    m >= 0,
            ;
        }
    }
}

/// Capping the terms first does not change a capped sum.
pub proof fn lemma_capped_add(x: nat, y: nat)
    ensures
        capped(capped(x as int) + capped(y as int)) == capped((x + y) as int),
{
}

/// The product of two counts, capped.
pub fn capped_mul(a: usize, b: usize) -> (r: usize)
    ensures
        r == capped(a * b),
{
    match a.checked_mul(b) {
        Some(p) => p,
        None => usize::MAX,
    }
}

/// The sum of two counts, capped.
pub fn capped_add(a: usize, b: usize) -> (r: usize)
    ensures
        r == capped(a + b),
{
    match a.checked_add(b) {
        Some(s) => s,
        None => usize::MAX,
    }
}

/// A count rounded up to a multiple of `pad`, capped.
pub fn capped_pad(x: usize, pad: usize) -> (r: usize)
    ensures
        r == capped(padded(x as nat, pad as nat) as int),
{
    if pad <= 1 {
        return x;
    }
    let rem: usize = x % pad;
    if rem == 0 {
        x
    } else {
        capped_add(x, pad - rem)
    }
}

} // verus!
