//! Errors of the item and character operations.
use vstd::prelude::*;

verus! {

/// Why an item operation was refused.
#[derive(Debug)]
pub enum LogicError {
    /// The addressed object does not exist.
    NotFound(String),
    /// The operation is not allowed in the object's current state.
    InvalidOperation(String),
    /// Not enough of an item: `have` of it, `need` asked for.
    Insufficient { item_id: String, have: u32, need: u32 },
}

} // verus!
