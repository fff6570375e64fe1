//! The failures that this crate finds.

use vstd::prelude::*;
use crate::registry::Role;

verus! {

/// Why a run cannot go ahead. Nothing is retried: the first failure ends
/// the run.
///
/// These are the failures that the crate finds in what it is given. A
/// runtime that cannot be initialised, a job that fails on the device and
/// a file that cannot be read are met by the caller, who talks to the
/// runtime and the file system, and end the run in the same way.
#[derive(Clone, Copy, Debug, PartialEq, Eq, Structural)]
pub enum Error {
    /// The device at this scan position refused exclusive access.
    DeviceAccess { device: usize },
    /// The scan found no unit for this role.
    MissingComputeUnit { role: Role },
    /// The token at this position of an input file is not a number.
    ParseError { token: usize },
    /// The feature streams of a mapped run differ in length.
    InconsistentInput,
    /// There is no weight vector to size a buffer from.
    NoData,
}

} // verus!
