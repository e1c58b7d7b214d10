use vstd::prelude::*;

verus! {

/// Envelope field that a decode found absent or zero when it was needed.
#[derive(Debug, Clone, Copy, PartialEq, Eq, Structural)]
pub enum FieldName {
    ListCnt,
    ListCap,
    Table,
}

/// Why a decode stopped; no table is produced with any of these.
#[derive(Debug, Clone, Copy, PartialEq, Eq, Structural)]
pub enum DecodeError {
    /// The declared count or capacity was absent or zero when the table came,
    /// or no table came at all.
    MissingField(FieldName),
    /// More lists than the declared count.
    CountOverflow,
    /// The list at this index received more items than the declared capacity.
    CapacityOverflow(u16),
    /// A label token that the schema does not know.
    InvalidLabel,
    /// An item token that the schema cannot convert.
    InvalidItem,
}

} // verus!
