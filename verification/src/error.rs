//! The errors of the store.

use vstd::prelude::*;

verus! {

/// Why an operation of the store failed.
#[derive(Debug, Clone, Copy, PartialEq, Eq, Structural)]
pub enum DbError {
    /// The text to load from is not a JSON document.
    Syntax,
    /// The JSON document to load from does not have the layout of a store.
    Layout,
    /// The snapshot of the store could not be written as JSON text.
    Serialize,
    /// The table has handed out its last id.
    IdsExhausted,
}

} // verus!
