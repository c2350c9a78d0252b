//! 4×4 matrices as sixteen scalar bit patterns, and the contract of the
//! matrix product that callers supply.

use vstd::prelude::*;
use crate::scalar::{ONE, ZERO};

verus! {

/// A 4×4 matrix: sixteen scalar bit patterns in the flat order of the
/// caller's matrix algebra.
#[derive(Clone, Copy, Debug, PartialEq, Eq)]
pub struct Mat4 {
    pub bits: [u32; 16],
}

impl Mat4 {
    /// The identity matrix: ones on the diagonal, zeros elsewhere.
    pub open spec fn identity_spec() -> Mat4 {
        Mat4 {
            bits: [
                ONE, ZERO, ZERO, ZERO,
                ZERO, ONE, ZERO, ZERO,
                ZERO, ZERO, ONE, ZERO,
                ZERO, ZERO, ZERO, ONE,
            ],
        }
    }

    /// The identity matrix.
    pub fn identity() -> (m: Mat4)
        ensures
            m == Mat4::identity_spec(),
    {
        Mat4 {
            bits: [
                ONE, ZERO, ZERO, ZERO,
                ZERO, ONE, ZERO, ZERO,
                ZERO, ZERO, ONE, ZERO,
                ZERO, ZERO, ZERO, ONE,
            ],
        }
    }
}

/// `count` identity matrices.
pub fn identities(count: usize) -> (v: Vec<Mat4>)
    ensures
        v@ == Seq::new(count as nat, |i: int| Mat4::identity_spec()),
{
    let mut v: Vec<Mat4> = Vec::new();
    let mut i: usize = 0;
    while i < count
        invariant
            i <= count,
            v@ == Seq::new(i as nat, |j: int| Mat4::identity_spec()),
        decreases count - i,
    {
        v.push(Mat4::identity());
        assert(v@ =~= Seq::new((i + 1) as nat, |j: int| Mat4::identity_spec()));
        i += 1;
    }
    v
}

/// What `compose` returns for `a` and `b`.
pub open spec fn product<F: Fn(Mat4, Mat4) -> Mat4>(compose: F, a: Mat4, b: Mat4) -> Mat4 {
    choose|r: Mat4| compose.ensures((a, b), r)
}

/// `compose` is a matrix product: it accepts every pair of matrices and its
/// result is a function of the pair.
pub open spec fn is_product<F: Fn(Mat4, Mat4) -> Mat4>(compose: F) -> bool {
    &&& forall|a: Mat4, b: Mat4| #[trigger] compose.requires((a, b))
    &&& forall|a: Mat4, b: Mat4, r: Mat4| #[trigger]
        compose.ensures((a, b), r) ==> r == product(compose, a, b)
}

/// The product of `a` and `b` is a value that `compose` has returned for
/// them: what its own postcondition says of a result holds of the product.
/// A function that has called `compose` on a pair ensures this of the pair,
/// so that its caller learns of the product what `compose` promises.
pub open spec fn returns_product<F: Fn(Mat4, Mat4) -> Mat4>(compose: F, a: Mat4, b: Mat4) -> bool {
    compose.ensures((a, b), product(compose, a, b))
}

/// The product of three matrices, taken from the left: `(a × b) × c`.
pub open spec fn product3<F: Fn(Mat4, Mat4) -> Mat4>(compose: F, a: Mat4, b: Mat4, c: Mat4) -> Mat4 {
    product(compose, product(compose, a, b), c)
}

/// Multiplies three matrices from the left.
pub fn compose3<F: Fn(Mat4, Mat4) -> Mat4>(compose: &F, a: Mat4, b: Mat4, c: Mat4) -> (r: Mat4)
    requires
        is_product(*compose),
    ensures
        r == product3(*compose, a, b, c),
        returns_product(*compose, a, b),
        returns_product(*compose, product(*compose, a, b), c),
        compose.ensures((product(*compose, a, b), c), r),
{
    let ab = compose(a, b);
    compose(ab, c)
}

} // verus!
