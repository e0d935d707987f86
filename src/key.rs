use vstd::prelude::*;

verus! {

/// The identifier of a datum inside one ingredient.
pub type Id = u32;

/// Identifies one datum of the database: an ingredient and a key inside it.
#[derive(Clone, Copy, Debug, PartialEq, Eq, Structural)]
pub struct DatabaseKeyIndex {
    pub ingredient_index: u32,
    pub key_index: Id,
}

/// Identifies what a query read: one datum, or every datum of an ingredient
/// when `key_index` is `None`.
#[derive(Clone, Copy, Debug, PartialEq, Eq, Structural)]
pub struct DependencyIndex {
    pub ingredient_index: u32,
    pub key_index: Option<Id>,
}

impl DatabaseKeyIndex {
    /// The dependency on exactly this datum.
    pub fn as_dependency(self) -> (r: DependencyIndex)
        ensures
            r.ingredient_index == self.ingredient_index,
            r.key_index == Some(self.key_index),
    {
        DependencyIndex { ingredient_index: self.ingredient_index, key_index: Some(self.key_index) }
    }
}

} // verus!
