//! The ways in which reassembly fails.

use crate::array::NumberKind;
use crate::schema::{PhysicalType, TypeKind};
use vstd::prelude::*;

verus! {

/// Why a nested value could not be reassembled.  A failure is permanent for
/// the given input: nothing is retried, and no partial result is kept.
#[derive(Clone, Copy, Debug, PartialEq, Eq, Structural)]
pub enum Error {
    /// A leaf is stored in a way that its logical type cannot be read from.
    UnsupportedPhysical { logical: TypeKind, physical: PhysicalType },
    /// A decimal is stored in byte arrays wider than the decimal itself.
    DecimalWidth { logical: TypeKind, width: usize },
    /// A struct without members has no column to take its shape from.
    EmptyStruct,
    /// A logical type that cannot be read from nested columns.
    UnsupportedType(TypeKind),
    /// The stacks of leaf columns and leaf types ran out.
    MissingColumn,
    /// A leaf column does not hold what was asked of its decoder: its levels
    /// of shape differ from the markers, or its values are stored otherwise
    /// than the decoder reads them.
    MalformedColumn,
    /// A stored value does not fit the logical type of the given kind.
    ValueOutOfRange(NumberKind),
    /// The members of a struct disagree on which of its rows are null.
    ValidityMismatch,
}

} // verus!
