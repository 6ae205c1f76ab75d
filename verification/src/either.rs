//! A value of one of two alternative types, used for fields whose wire
//! width depends on a full-box version.

use vstd::prelude::*;

verus! {

/// Holds either an `A` or a `B`. Box fields whose width is selected by the
/// box version store the wide reading as `A` and the narrow one as `B`.
#[derive(Debug, Clone, Copy, PartialEq, Eq)]
pub enum Either<A, B> {
    A(A),
    B(B),
}

} // verus!
