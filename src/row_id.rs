//! Row identifiers of the catalog.
use vstd::prelude::*;

verus! {

/// A row id that is unset until the row is inserted, and always set when read back.
#[derive(Clone, Copy, Debug, PartialEq, Eq, Structural)]
pub struct RowId(pub Option<i64>);

impl RowId {
    /// An id still to be assigned on insert.
    pub fn new_unset() -> (r: Self)
        ensures
            r.0.is_none(),
    {
        RowId(None)
    }

    pub fn new(id: i64) -> (r: Self)
        ensures
            r.0 == Some(id),
    {
        RowId(Some(id))
    }

    /// The id of a row that was read back.
    pub fn as_int(self) -> (r: i64)
        requires
            self.0.is_some(),
        ensures
            self.0 == Some(r),
    {
        self.0.unwrap()
    }
}

} // verus!
