//! A marker for stores kept in a sqlite connection.

use vstd::prelude::*;

verus! {

/// Marks a store of the tables that lives in a sqlite connection.
pub trait SqliteConnection {}

} // verus!
