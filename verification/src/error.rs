//! Failures that constructors of this crate report.

use vstd::prelude::*;

verus! {

/// Why a root or a polynomial could not be built.
#[derive(Clone, Debug, PartialEq, Eq)]
pub enum Error {
    /// The pair `(a, b)` does not give a factor `a*x + b` with an integral
    /// root: `a` is zero or does not divide `b`.
    OutsideIntegerField(i64, i64),
    /// The number of public roots is not strictly between zero and the
    /// number of roots.
    InvalidPublicRoots(usize),
    /// A public polynomial was asked for, but no public roots are set.
    NoPublicRoots,
}

} // verus!
