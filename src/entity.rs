use vstd::prelude::*;

verus! {

/// Opaque identity of a widget entity: copyable, totally ordered by its id.
#[derive(Clone, Copy, Debug, PartialEq, Eq, Structural, PartialOrd, Ord, Hash)]
pub struct Entity(pub u32);

impl Entity {
    /// The numeric id of the entity.
    pub fn id(&self) -> (r: u32)
        ensures
            r == self.0,
    {
        self.0
    }
}

} // verus!
