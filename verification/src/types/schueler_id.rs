//! The identifier of a student.

use vstd::prelude::*;

verus! {

/// A student's identifier: the 128 bits of the student's UUID, read as one
/// number, most significant byte first. Two identifiers compare as those
/// numbers do.
#[derive(Clone, Copy, PartialEq, Eq, Hash, Debug, PartialOrd, Ord, Structural)]
pub struct SchuelerId(pub u128);

impl SchuelerId {
    /// The identifier with the number `id`.
    pub fn new(id: u128) -> (r: Self)
        ensures
            r == SchuelerId(id),
    {
        SchuelerId(id)
    }

    /// The number of the identifier.
    pub fn id(&self) -> (r: u128)
        ensures
            r == self.0,
    {
        self.0
    }
}

impl Default for SchuelerId {
    fn default() -> (r: Self)
        ensures
            r == SchuelerId(0),
    {
        SchuelerId(0)
    }
}

} // verus!
