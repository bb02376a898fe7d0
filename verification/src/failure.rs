//! The ways in which loading an equivalence-class file can fail.

use vstd::prelude::*;

verus! {

/// Why a load was abandoned. Every failure ends the load: there is no partial
/// result.
#[derive(Debug, Clone, Copy, PartialEq, Eq, Structural)]
pub enum ParseFailure {
    /// The input could not be read: the file is missing, it is not the gzip
    /// stream its name promises, or a target name is not UTF-8.
    IoFailure,
    /// One of the two leading count lines is not a non-negative integer.
    MalformedHeader,
    /// The input ends before all the declared names or records were read.
    TruncatedInput,
    /// A record line lacks a field, or a field is not a number.
    MalformedRecord,
}

} // verus!
