//! The two ways in which a request can fail.

use vstd::prelude::*;

verus! {

/// A palette specifier was malformed: its length is not a multiple of six, or
/// it holds a character that is not a hexadecimal digit.
#[derive(Clone, Copy, Debug, PartialEq, Eq, Structural)]
pub struct InvalidPaletteError;

/// The two ends of a scale's domain coincide, so no position on it is defined.
#[derive(Clone, Copy, Debug, PartialEq, Eq, Structural)]
pub struct DomainError;

} // verus!
